//! A static-file HTTP responder, verified with Verus.
//!
//! The crate holds the decisions of a minimal HTTP/1.1 file server: reading
//! the request line, confining the requested path to the server root, choosing
//! the content type and framing the response. It performs no input or output
//! itself; a driver feeds it what the connection and the filesystem returned.

pub mod bytes;
pub mod content;
pub mod decimal;
pub mod path;
pub mod port;
pub mod request;
pub mod response;
pub mod scan;
pub mod server;
pub mod text;
