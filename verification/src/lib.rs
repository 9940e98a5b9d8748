//! A dual-protocol greeting server, verified.
//!
//! One process exposes a single unary RPC method, `Greeter.SayHello`, over a
//! length-delimited binary framing, and one HTTP route, `GET /`, which serves a
//! fixed HTML page. Inbound data is classified by protocol and dispatched to
//! the RPC method table or the HTTP route table; an optional reflection
//! pseudo-service lets clients list the registered services and fetch their
//! schema descriptors. The network edge (sockets, accept loops) lives outside
//! this library: it hands complete inbound bytes in and carries response
//! values back out.

pub mod codec;
pub mod greeting;
pub mod http;
pub mod mux;
pub mod reflect;
pub mod rpc;
pub mod status;
pub mod text;
