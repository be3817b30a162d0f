//! A small network speed test server: request parsing, chunked upload
//! decoding, response framing and the iperf3 control protocol, verified.

pub mod text;
pub mod hash;
pub mod line;
pub mod limits;
pub mod chunked;
pub mod json;
pub mod params;
pub mod query;
pub mod response;
pub mod render;
pub mod request;
pub mod site;
pub mod iperf;
pub mod args;
