//! A small static-file HTTP server's core: request-line parsing, path
//! resolution, the access guard, response rendering and the per-client
//! rate limiter. Everything that touches the network or the file system
//! lives outside this library and hands plain values in.

pub mod bytes;
pub mod clock;
pub mod guard;
pub mod limiter;
pub mod listing;
pub mod paths;
pub mod request;
pub mod response;
