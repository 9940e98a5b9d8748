use std::sync::Arc;

use hello_dual::codec::{encode_envelope, take_chunk, DecodeError};
use hello_dual::mux::{new_server, rpc_preface, Outcome};
use hello_dual::reflect::greeter_descriptor;
use hello_dual::rpc::RpcOutcome;
use hello_dual::status::StatusCode;

#[test]
fn http_root_serves_home_page() {
    let server = new_server(false);
    let resp = server.http.handle("GET", "/");
    assert_eq!(resp.status, 200);
    assert_eq!(resp.content_type, "text/html");
    assert_eq!(resp.body, "<h1>Hello, World!</h1>");
}

#[test]
fn http_root_with_query_serves_home_page() {
    let server = new_server(false);
    let resp = server.http.handle("GET", "/?debug=1&x=2");
    assert_eq!(resp.status, 200);
    assert_eq!(resp.body, "<h1>Hello, World!</h1>");
}

#[test]
fn http_unmatched_path_not_found() {
    let server = new_server(false);
    let resp = server.http.handle("GET", "/missing");
    assert_eq!(resp.status, 404);
    assert_eq!(resp.content_type, "text/plain");
    assert_eq!(resp.body, "not found");
}

#[test]
fn http_wrong_method_not_found() {
    let server = new_server(false);
    let resp = server.http.handle("POST", "/");
    assert_eq!(resp.status, 404);
}

#[test]
fn rpc_say_hello_round_trip() {
    let server = new_server(false);
    let frame = encode_envelope(b"helloworld.Greeter", b"SayHello", "Verus".as_bytes());
    match server.rpc.handle_frame(&frame) {
        RpcOutcome::Reply(bytes) => assert_eq!(bytes, b"Hello Verus!"),
        _ => panic!("expected a reply"),
    }
}

#[test]
fn rpc_say_hello_unicode_name() {
    let server = new_server(false);
    let frame = encode_envelope(b"helloworld.Greeter", b"SayHello", "žluť ✓".as_bytes());
    match server.rpc.handle_frame(&frame) {
        RpcOutcome::Reply(bytes) => assert_eq!(bytes, "Hello žluť ✓!".as_bytes()),
        _ => panic!("expected a reply"),
    }
}

#[test]
fn rpc_unknown_method_not_found() {
    let server = new_server(false);
    let frame = encode_envelope(b"helloworld.Greeter", b"Shout", b"ignored");
    match server.rpc.handle_frame(&frame) {
        RpcOutcome::Refused(code) => assert_eq!(code, StatusCode::NotFound),
        _ => panic!("expected a not-found status"),
    }
}

#[test]
fn rpc_unknown_service_not_found() {
    let server = new_server(false);
    let frame = encode_envelope(b"nope.Service", b"SayHello", b"");
    match server.rpc.handle_frame(&frame) {
        RpcOutcome::Refused(code) => assert_eq!(code, StatusCode::NotFound),
        _ => panic!("expected a not-found status"),
    }
}

#[test]
fn rpc_malformed_frame_rejected() {
    let server = new_server(false);
    match server.rpc.handle_frame(b"xx") {
        RpcOutcome::Malformed(e) => assert_eq!(e, DecodeError::Truncated),
        _ => panic!("expected a malformed-frame rejection"),
    }
}

#[test]
fn rpc_invalid_utf8_body_rejected() {
    let server = new_server(false);
    let frame = encode_envelope(b"helloworld.Greeter", b"SayHello", &[0xff, 0xfe]);
    match server.rpc.handle_frame(&frame) {
        RpcOutcome::Malformed(e) => assert_eq!(e, DecodeError::InvalidText),
        _ => panic!("expected an invalid-text rejection"),
    }
}

#[test]
fn reflection_lists_greeter() {
    let server = new_server(true);
    let frame = encode_envelope(b"reflection.Reflection", b"ListServices", b"");
    let listing = match server.rpc.handle_frame(&frame) {
        RpcOutcome::Reply(bytes) => bytes,
        _ => panic!("expected a reply"),
    };
    let mut names: Vec<Vec<u8>> = Vec::new();
    let mut pos = 0;
    while pos < listing.len() {
        let (name, next) = take_chunk(&listing, pos).unwrap();
        names.push(name);
        pos = next;
    }
    assert!(names.contains(&b"helloworld.Greeter".to_vec()));
    assert!(names.contains(&b"reflection.Reflection".to_vec()));
}

#[test]
fn reflection_descriptor_fetch() {
    let server = new_server(true);
    let frame = encode_envelope(b"reflection.Reflection", b"GetDescriptor", b"helloworld.Greeter");
    match server.rpc.handle_frame(&frame) {
        RpcOutcome::Reply(bytes) => {
            assert!(!bytes.is_empty());
            assert_eq!(bytes, greeter_descriptor());
        },
        _ => panic!("expected a reply"),
    }
}

#[test]
fn reflection_unknown_descriptor_not_found() {
    let server = new_server(true);
    let frame = encode_envelope(b"reflection.Reflection", b"GetDescriptor", b"nope.Service");
    match server.rpc.handle_frame(&frame) {
        RpcOutcome::Refused(code) => assert_eq!(code, StatusCode::NotFound),
        _ => panic!("expected a not-found status"),
    }
}

#[test]
fn reflection_disabled_not_registered() {
    let server = new_server(false);
    let frame = encode_envelope(b"reflection.Reflection", b"ListServices", b"");
    match server.rpc.handle_frame(&frame) {
        RpcOutcome::Refused(code) => assert_eq!(code, StatusCode::NotFound),
        _ => panic!("expected a not-found status"),
    }
}

#[test]
fn mux_rpc_inbound_reaches_rpc_server() {
    let server = new_server(false);
    let mut data = rpc_preface();
    let frame = encode_envelope(b"helloworld.Greeter", b"SayHello", b"mux");
    data.extend_from_slice(&frame);
    match server.handle_inbound(&data) {
        Outcome::Rpc(RpcOutcome::Reply(bytes)) => assert_eq!(bytes, b"Hello mux!"),
        _ => panic!("expected an RPC reply"),
    }
}

#[test]
fn mux_http_inbound_reaches_router() {
    let server = new_server(false);
    match server.handle_inbound(b"GET / HTTP/1.1") {
        Outcome::Http(resp) => {
            assert_eq!(resp.status, 200);
            assert_eq!(resp.body, "<h1>Hello, World!</h1>");
        },
        _ => panic!("expected an HTTP response"),
    }
}

#[test]
fn mux_unmatched_path_stays_http() {
    let server = new_server(false);
    match server.handle_inbound(b"GET /missing HTTP/1.1") {
        Outcome::Http(resp) => assert_eq!(resp.status, 404),
        _ => panic!("expected an HTTP response, not an RPC outcome"),
    }
}

#[test]
fn mux_unreadable_request_line_bad_request() {
    let server = new_server(false);
    match server.handle_inbound(b"garbage") {
        Outcome::Http(resp) => assert_eq!(resp.status, 400),
        _ => panic!("expected an HTTP response"),
    }
}

#[test]
fn mux_bad_utf8_request_line_bad_request() {
    let server = new_server(false);
    match server.handle_inbound(b"G\xffT / HTTP/1.1") {
        Outcome::Http(resp) => assert_eq!(resp.status, 400),
        _ => panic!("expected an HTTP response"),
    }
}

#[test]
fn concurrent_frames_get_their_own_replies() {
    let server = Arc::new(new_server(true));
    let rt = tokio::runtime::Builder::new_multi_thread()
        .worker_threads(2)
        .build()
        .unwrap();
    let (a, b) = rt.block_on(async {
        let sa = server.clone();
        let sb = server.clone();
        let ja = tokio::spawn(async move {
            let frame = encode_envelope(b"helloworld.Greeter", b"SayHello", b"A");
            match sa.rpc.handle_frame(&frame) {
                RpcOutcome::Reply(bytes) => bytes,
                _ => panic!("expected a reply"),
            }
        });
        let jb = tokio::spawn(async move {
            let frame = encode_envelope(b"helloworld.Greeter", b"SayHello", b"B");
            match sb.rpc.handle_frame(&frame) {
                RpcOutcome::Reply(bytes) => bytes,
                _ => panic!("expected a reply"),
            }
        });
        (ja.await.unwrap(), jb.await.unwrap())
    });
    assert_eq!(a, b"Hello A!");
    assert_eq!(b, b"Hello B!");
}
