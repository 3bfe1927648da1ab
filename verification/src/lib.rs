//! A verified core for a small HTTP/1.1 test server.
//!
//! The library holds everything the server decides or computes: parsing one
//! HTTP/1.1 request out of a byte buffer, routing on the request path,
//! formatting the header-echo and cookie-echo bodies, building the response
//! bytes, and the keep-alive and port-selection decisions.  The surrounding
//! process does only socket I/O and feeds bytes in and out.

pub mod handlers;
pub mod laws;
pub mod parse;
pub mod request;
pub mod response;
pub mod route;
pub mod server;
pub mod tokens;
pub mod util;
