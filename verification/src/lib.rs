//! The framing core of an HTTP/3 endpoint: the wire codec for frames and the
//! state machines that sequence one request or response over a QUIC stream.

pub mod buf;
pub mod congestion;
pub mod data;
pub mod error;
pub mod feed;
pub mod frame;
pub mod headers;
pub mod proto;
pub mod streams;
pub mod tls;
