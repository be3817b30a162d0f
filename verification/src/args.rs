//! Command-line arguments of the server.
use vstd::prelude::*;
use vstd::string::StringSliceAdditionalSpecFns;
use crate::text::{bytes_eq, concat_str, parse_unsigned, parse_unsigned_spec, IntError};

verus! {

/// Default port of the web interface.
pub const DEFAULT_HTTP_PORT: u16 = 8080;

/// Default port of the iperf3 server.
pub const DEFAULT_IPERF_PORT: u16 = 5201;

/// The arguments the server knows.
#[derive(PartialEq, Eq, Debug, Clone, Copy, Structural)]
pub enum Flag {
    /// `--bind ADDRESS`
    Bind,
    /// `--http-port PORT`
    HttpPort,
    /// `--iperf-port PORT`
    IperfPort,
    /// `--no-iperf`
    NoIperf,
    /// `-h` or `--help`
    Help,
    /// Anything else.
    Unknown,
}

/// The flag an argument names.
pub open spec fn flag_spec(arg: Seq<u8>) -> Flag {
    if arg == "--bind".spec_bytes() {
        Flag::Bind
    } else if arg == "--http-port".spec_bytes() {
        Flag::HttpPort
    } else if arg == "--iperf-port".spec_bytes() {
        Flag::IperfPort
    } else if arg == "--no-iperf".spec_bytes() {
        Flag::NoIperf
    } else if arg == "-h".spec_bytes() || arg == "--help".spec_bytes() {
        Flag::Help
    } else {
        Flag::Unknown
    }
}

/// The flag that `arg` names.
pub fn classify(arg: &str) -> (r: Flag)
    ensures
        r == flag_spec(arg.spec_bytes()),
{
    let a = arg.as_bytes();
    if bytes_eq(a, "--bind".as_bytes()) {
        Flag::Bind
    } else if bytes_eq(a, "--http-port".as_bytes()) {
        Flag::HttpPort
    } else if bytes_eq(a, "--iperf-port".as_bytes()) {
        Flag::IperfPort
    } else if bytes_eq(a, "--no-iperf".as_bytes()) {
        Flag::NoIperf
    } else if bytes_eq(a, "-h".as_bytes()) || bytes_eq(a, "--help".as_bytes()) {
        Flag::Help
    } else {
        Flag::Unknown
    }
}

/// The message when the flag `name` has no value after it.
pub open spec fn missing_value_text(name: Seq<char>) -> Seq<char> {
    "missing value for "@ + name
}

/// The value that follows the flag `name`: the next argument, or, when there
/// is none, the message `missing value for NAME`.
pub fn value(next: Option<String>, name: &str) -> (r: Result<String, String>)
    ensures
        match next {
            Some(v) => r == Ok::<String, String>(v),
            None => r matches Err(m) && m@ == missing_value_text(name@),
        },
{
    match next {
        Some(v) => Ok(v),
        None => Err(concat_str("missing value for ", name)),
    }
}

/// A port number as `u16::from_str` reads it.
pub fn parse_port(text: &str) -> (r: Result<u16, IntError>)
    ensures
        match parse_unsigned_spec(text.spec_bytes(), 10, u16::MAX as nat) {
            Ok(n) => r == Ok::<u16, IntError>(n as u16),
            Err(e) => r == Err::<u16, IntError>(e),
        },
{
    match parse_unsigned(text.as_bytes(), 10, u16::MAX as u64) {
        Ok(n) => Ok(n as u16),
        Err(e) => Err(e),
    }
}

} // verus!
