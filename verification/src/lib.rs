//! A minimal HTTP/1.1 server library: a wire codec that decodes a raw byte
//! buffer into a structured request and encodes a structured response back
//! into wire bytes, a route table with exact-match lookup, and the
//! per-connection dispatch logic that ties them together.  All parsing,
//! encoding and routing logic is verified; the TCP listener that feeds bytes
//! in and writes bytes out lives outside this crate.

pub mod handlers;
pub mod request;
pub mod response;
pub mod router;
pub mod strmap;
pub mod strutil;

pub use request::DecodeError;
pub use request::Method;
pub use request::Request;
pub use response::Response;
pub use router::Handler;
pub use router::Router;
