//! Request parsing, response framing, URL patterns and the WebSocket opening
//! handshake of a small HTTP server, with their contracts.
pub mod text;
pub mod url_pattern;
pub mod string_map;
pub mod http;
pub mod request;
pub mod websocket;
pub mod routing;
