//! The iperf3 control protocol, from the server's side: the state bytes and
//! frames it sends, the checks on what the client sends, and the test
//! results it reports.
use vstd::prelude::*;
use vstd::string::StringSliceAdditionalSpecFns;
use crate::params::{parse_parameters, parameters_spec, secs_duration, ParamError, Parameters};
use vstd::utf8::valid_utf8;
use crate::text::{dec, push_bytes, push_decimal, utf8_str};
use crate::render::{contains, occurs_at};

verus! {

broadcast use vstd::utf8::decode_utf8_encode_utf8;

/// Length of the cookie that opens every iperf3 connection.
pub const COOKIE_SIZE: usize = 37;

/// Largest JSON frame accepted: 1 MiB.
pub const MAX_JSON: usize = 1048576;

pub const PARAM_EXCHANGE: u8 = 9;
pub const CREATE_STREAMS: u8 = 10;
pub const TEST_START: u8 = 1;
pub const TEST_RUNNING: u8 = 2;
pub const TEST_END: u8 = 4;
pub const EXCHANGE_RESULTS: u8 = 13;
pub const DISPLAY_RESULTS: u8 = 14;
pub const IPERF_DONE: u8 = 16;
/// `SERVER_ERROR` (-2) as a byte.
pub const SERVER_ERROR: u8 = 0xfe;
/// The byte written to a connection that may not join a test.
pub const ACCESS_DENIED: u8 = 0xff;
/// The error code sent when the parameters are refused.
pub const PARAMETER_ERROR_CODE: i32 = 13;

/// What to do with a new connection, given its cookie.
#[derive(PartialEq, Eq, Debug, Clone, Copy, Structural)]
pub enum Admission {
    /// No test is running: the connection is the control connection of a new one.
    NewSession,
    /// The connection is a data stream of the running test.
    JoinSession,
    /// A test of another client is running: deny the connection.
    Deny,
}

/// Decides what a connection with `cookie` from a peer is: the control
/// connection of a new test when none runs; a data stream of the running
/// test when its cookie and peer address match (`same_peer`); denied otherwise.
/// One test runs at a time.
pub fn admission(active_cookie: Option<&[u8]>, same_peer: bool, cookie: &[u8]) -> (r: Admission)
    ensures
        match active_cookie {
            None => r == Admission::NewSession,
            Some(c) => r == (if c@ == cookie@ && same_peer { Admission::JoinSession } else { Admission::Deny }),
        },
{
    match active_cookie {
        None => Admission::NewSession,
        Some(c) => {
            if same_peer && crate::text::bytes_eq(c, cookie) {
                Admission::JoinSession
            } else {
                Admission::Deny
            }
        },
    }
}

/// Why a JSON frame was refused.
#[derive(PartialEq, Eq, Debug, Clone, Copy, Structural)]
pub enum FrameError {
    /// The announced length is 0 or more than [`MAX_JSON`].
    InvalidLength,
    /// The frame is not UTF-8.
    NotUtf8,
    /// The JSON is too long for a 32-bit length.
    TooLarge,
}

/// The text of a JSON frame's body: `NotUtf8` when it is not UTF-8.
pub fn json_text(data: &[u8]) -> (r: Result<&str, FrameError>)
    ensures
        r is Ok <==> valid_utf8(data@),
        r matches Ok(s) ==> s.spec_bytes() == data@,
        r matches Err(e) ==> e == FrameError::NotUtf8,
{
    match utf8_str(data) {
        Some(s) => Ok(s),
        None => Err(FrameError::NotUtf8),
    }
}

/// A big-endian 32-bit length.
pub open spec fn be32_value(h: Seq<u8>) -> nat {
    (h[0] as nat) * 0x1000000 + (h[1] as nat) * 0x10000 + (h[2] as nat) * 0x100 + (h[3] as nat)
}

/// The length a JSON frame announces in its 4-byte big-endian header;
/// refused when 0 or more than [`MAX_JSON`].
pub fn json_frame_length(header: &[u8]) -> (r: Result<usize, FrameError>)
    requires
        header@.len() == 4,
    ensures
        (1 <= be32_value(header@) <= MAX_JSON) ==> r == Ok::<usize, FrameError>(be32_value(header@) as usize),
        !(1 <= be32_value(header@) <= MAX_JSON) ==> r == Err::<usize, FrameError>(FrameError::InvalidLength),
{
    let length: u64 = (header[0] as u64) * 0x1000000 + (header[1] as u64) * 0x10000 + (header[2] as u64) * 0x100
        + (header[3] as u64);
    if length == 0 || length > MAX_JSON as u64 {
        Err(FrameError::InvalidLength)
    } else {
        Ok(length as usize)
    }
}

/// The big-endian bytes of a 32-bit value.
pub open spec fn be32(v: u32) -> Seq<u8> {
    seq![(v / 0x1000000) as u8, ((v / 0x10000) % 0x100) as u8, ((v / 0x100) % 0x100) as u8, (v % 0x100) as u8]
}

fn push_be32(out: &mut Vec<u8>, v: u32)
    ensures
        final(out)@ == old(out)@ + be32(v),
{
    out.push((v / 0x1000000) as u8);
    out.push(((v / 0x10000) % 0x100) as u8);
    out.push(((v / 0x100) % 0x100) as u8);
    out.push((v % 0x100) as u8);
    assert(final(out)@ =~= old(out)@ + be32(v));
}

/// A JSON frame: the text's length as 4 big-endian bytes, then the text;
/// refused when the text is longer than a 32-bit length allows.
pub fn json_frame(json: &[u8]) -> (r: Result<Vec<u8>, FrameError>)
    ensures
        json@.len() <= u32::MAX ==> (r matches Ok(f) && f@ == be32(json@.len() as u32) + json@),
        json@.len() > u32::MAX ==> r == Err::<Vec<u8>, FrameError>(FrameError::TooLarge),
{
    if json.len() > u32::MAX as usize {
        return Err(FrameError::TooLarge);
    }
    let mut out: Vec<u8> = Vec::new();
    push_be32(&mut out, json.len() as u32);
    push_bytes(&mut out, json);
    Ok(out)
}

/// The bytes that report a server error: `SERVER_ERROR`, then the error
/// code and the OS error number as 32-bit big-endian two's complement.
pub fn server_error_frame(code: i32, os_error: i32) -> (r: Vec<u8>)
    ensures
        r@ == seq![SERVER_ERROR] + be32(code as u32) + be32(os_error as u32),
{
    let mut out: Vec<u8> = Vec::new();
    out.push(SERVER_ERROR);
    push_be32(&mut out, code as u32);
    push_be32(&mut out, os_error as u32);
    assert(out@ =~= seq![SERVER_ERROR] + be32(code as u32) + be32(os_error as u32));
    out
}

/// The stream id reported for the stream at `index`: iperf3 numbers
/// parallel streams 1, 3, 4, 5, ..., and its clients check these ids.
pub open spec fn stream_id(index: nat) -> nat {
    if index == 0 {
        1
    } else {
        index + 2
    }
}

/// The `retransmits` and `sender_has_retransmits` value: 0 when the server sent, else -1.
pub open spec fn retransmits(sender: bool) -> Seq<u8> {
    if sender {
        "0".spec_bytes()
    } else {
        "-1".spec_bytes()
    }
}

/// The result object of the stream at `index` that carried `bytes`.
pub open spec fn stream_json(index: nat, bytes: u64, end_time: Seq<u8>, sender: bool) -> Seq<u8> {
    "{\"id\":".spec_bytes() + dec(stream_id(index)) + ",\"bytes\":".spec_bytes() + dec(bytes as nat)
        + ",\"retransmits\":".spec_bytes() + retransmits(sender)
        + ",\"jitter\":0,\"errors\":0,\"omitted_errors\":0,\"packets\":0,\"omitted_packets\":0,\"start_time\":0,\"end_time\":".spec_bytes()
        + end_time + "}".spec_bytes()
}

/// The result objects of the first `n` streams, joined by commas.
pub open spec fn streams_json(bytes: Seq<u64>, n: nat, end_time: Seq<u8>, sender: bool) -> Seq<u8>
    decreases n,
{
    if n == 0 {
        seq![]
    } else if n == 1 {
        stream_json(0, bytes[0], end_time, sender)
    } else {
        streams_json(bytes, (n - 1) as nat, end_time, sender) + ",".spec_bytes() + stream_json((n - 1) as nat, bytes[n - 1], end_time, sender)
    }
}

/// The server's test results.
pub open spec fn results_spec(bytes: Seq<u64>, end_time: Seq<u8>, sender: bool) -> Seq<u8> {
    "{\"cpu_util_total\":0,\"cpu_util_user\":0,\"cpu_util_system\":0,\"sender_has_retransmits\":".spec_bytes()
        + retransmits(sender) + ",\"streams\":[".spec_bytes() + streams_json(bytes, bytes.len(), end_time, sender) + "]}".spec_bytes()
}

fn push_stream(out: &mut Vec<u8>, index: usize, bytes: u64, end_time: &[u8], sender: bool)
    requires
        index < usize::MAX - 2,
    ensures
        final(out)@ == old(out)@ + stream_json(index as nat, bytes, end_time@, sender),
{
    push_bytes(out, "{\"id\":".as_bytes());
    let id: u64 = if index == 0 {
        1
    } else {
        index as u64 + 2
    };
    push_decimal(out, id);
    push_bytes(out, ",\"bytes\":".as_bytes());
    push_decimal(out, bytes);
    push_bytes(out, ",\"retransmits\":".as_bytes());
    let r = if sender {
        "0"
    } else {
        "-1"
    };
    push_bytes(out, r.as_bytes());
    push_bytes(out, ",\"jitter\":0,\"errors\":0,\"omitted_errors\":0,\"packets\":0,\"omitted_packets\":0,\"start_time\":0,\"end_time\":".as_bytes());
    push_bytes(out, end_time);
    push_bytes(out, "}".as_bytes());
    assert(final(out)@ =~= old(out)@ + stream_json(index as nat, bytes, end_time@, sender));
}

/// The results the server reports: for each stream, in order, the bytes it
/// carried, under the stream ids iperf3 uses; `end_time` is the test's
/// duration in seconds as text; `sender` tells whether the server sent.
pub fn results_json(bytes: &[u64], end_time: &[u8], sender: bool) -> (r: Vec<u8>)
    requires
        bytes@.len() < usize::MAX - 2,
    ensures
        r@ == results_spec(bytes@, end_time@, sender),
        forall|i: int| 0 <= i < bytes@.len() ==> contains(r@, #[trigger] stream_start(i as nat, bytes@[i])),
{
    let mut out: Vec<u8> = Vec::new();
    push_bytes(&mut out, "{\"cpu_util_total\":0,\"cpu_util_user\":0,\"cpu_util_system\":0,\"sender_has_retransmits\":".as_bytes());
    let r = if sender {
        "0"
    } else {
        "-1"
    };
    push_bytes(&mut out, r.as_bytes());
    push_bytes(&mut out, ",\"streams\":[".as_bytes());
    let ghost prefix = out@;
    let mut i: usize = 0;
    while i < bytes.len()
        invariant
            i <= bytes@.len(),
            bytes@.len() < usize::MAX - 2,
            out@ == prefix + streams_json(bytes@, i as nat, end_time@, sender),
        decreases bytes@.len() - i,
    {
        if i > 0 {
            push_bytes(&mut out, ",".as_bytes());
        }
        push_stream(&mut out, i, bytes[i], end_time, sender);
        assert(out@ =~= prefix + streams_json(bytes@, (i + 1) as nat, end_time@, sender));
        i = i + 1;
    }
    push_bytes(&mut out, "]}".as_bytes());
    proof {
        assert forall|i: int| 0 <= i < bytes@.len() implies contains(out@, #[trigger] stream_start(i as nat, bytes@[i])) by {
            lemma_results_streams(bytes@, end_time@, sender, i as nat);
        }
    }
    out
}


/// How far a test has come.
#[derive(PartialEq, Eq, Debug, Clone, Copy, Structural)]
pub enum SessionPhase {
    /// Nothing sent yet.
    Greeting,
    /// Waiting for the client's parameters.
    Parameters,
    /// Waiting for the data streams to connect.
    Streams,
    /// The test runs; waiting for the client's `TEST_END`.
    Testing,
    /// Waiting for the client's results, to answer with the server's.
    Results,
    /// Waiting for the client's `IPERF_DONE`.
    Display,
    /// The test is complete.
    Done,
    /// The test was abandoned.
    Failed,
}

/// Why a test was abandoned.
#[derive(PartialEq, Eq, Debug, Clone, Copy, Structural)]
pub enum SessionError {
    /// The client's parameters were refused.
    Parameters(ParamError),
    /// The client sent the state byte `got` where `expected` was due.
    UnexpectedState { expected: u8, got: u8 },
    /// The server's results do not fit a frame.
    Frame(FrameError),
}

/// The control side of one iperf3 test.
pub struct Session {
    pub phase: SessionPhase,
    /// Whether the server sends the data (reverse mode).
    pub reverse: bool,
}

impl Session {
    /// A test whose control connection just opened.
    pub fn new() -> (r: Session)
        ensures
            r.phase == SessionPhase::Greeting,
            !r.reverse,
    {
        Session { phase: SessionPhase::Greeting, reverse: false }
    }

    /// The first message: `PARAM_EXCHANGE`, asking for the parameters.
    pub fn greet(&mut self) -> (r: Vec<u8>)
        requires
            old(self).phase == SessionPhase::Greeting,
        ensures
            r@ == seq![PARAM_EXCHANGE],
            final(self).phase == SessionPhase::Parameters,
            final(self).reverse == old(self).reverse,
    {
        self.phase = SessionPhase::Parameters;
        let mut out: Vec<u8> = Vec::new();
        out.push(PARAM_EXCHANGE);
        assert(out@ =~= seq![PARAM_EXCHANGE]);
        out
    }

    /// Takes the client's parameter JSON: the accepted parameters and the
    /// message `CREATE_STREAMS`; or, when they are refused, the error and the
    /// server-error message with code 13 and OS error 0, and the test fails.
    pub fn on_parameters(&mut self, json: &str) -> (r: Result<(Parameters, Vec<u8>), (ParamError, Vec<u8>)>)
        requires
            old(self).phase == SessionPhase::Parameters,
        ensures
            match parameters_spec(json.spec_bytes()) {
                Ok((streams, reverse, block, secs)) => r matches Ok((p, m)) && p.streams == streams && p.reverse
                    == reverse && p.block_size == block && p.test_timeout == secs_duration(secs as u64) && m@ == seq![
                    CREATE_STREAMS] && final(self).phase == SessionPhase::Streams && final(self).reverse == reverse,
                Err(e) => r matches Err((e2, m)) && e2 == e && m@ == seq![SERVER_ERROR] + be32(PARAMETER_ERROR_CODE as u32)
                    + be32(0u32) && final(self).phase == SessionPhase::Failed,
            },
    {
        match parse_parameters(json) {
            Ok(p) => {
                self.phase = SessionPhase::Streams;
                self.reverse = p.reverse;
                let mut out: Vec<u8> = Vec::new();
                out.push(CREATE_STREAMS);
                assert(out@ =~= seq![CREATE_STREAMS]);
                Ok((p, out))
            },
            Err(e) => {
                self.phase = SessionPhase::Failed;
                Err((e, server_error_frame(PARAMETER_ERROR_CODE, 0)))
            },
        }
    }

    /// All data streams connected: the messages `TEST_START` and `TEST_RUNNING`.
    pub fn streams_ready(&mut self) -> (r: Vec<u8>)
        requires
            old(self).phase == SessionPhase::Streams,
        ensures
            r@ == seq![TEST_START, TEST_RUNNING],
            final(self).phase == SessionPhase::Testing,
            final(self).reverse == old(self).reverse,
    {
        self.phase = SessionPhase::Testing;
        let mut out: Vec<u8> = Vec::new();
        out.push(TEST_START);
        out.push(TEST_RUNNING);
        assert(out@ =~= seq![TEST_START, TEST_RUNNING]);
        out
    }

    /// Takes the state byte the client sends to end the test: `TEST_END`
    /// is answered with `EXCHANGE_RESULTS`; anything else abandons the test.
    pub fn on_test_state(&mut self, state: u8) -> (r: Result<Vec<u8>, SessionError>)
        requires
            old(self).phase == SessionPhase::Testing,
        ensures
            state == TEST_END ==> (r matches Ok(m) && m@ == seq![EXCHANGE_RESULTS]) && final(self).phase
                == SessionPhase::Results,
            state != TEST_END ==> r == Err::<Vec<u8>, SessionError>(SessionError::UnexpectedState { expected: TEST_END, got: state })
                && final(self).phase == SessionPhase::Failed,
            final(self).reverse == old(self).reverse,
    {
        if state == TEST_END {
            self.phase = SessionPhase::Results;
            let mut out: Vec<u8> = Vec::new();
            out.push(EXCHANGE_RESULTS);
            assert(out@ =~= seq![EXCHANGE_RESULTS]);
            Ok(out)
        } else {
            self.phase = SessionPhase::Failed;
            Err(SessionError::UnexpectedState { expected: TEST_END, got: state })
        }
    }

    /// After the client's results arrived: the server's results as a JSON
    /// frame, then `DISPLAY_RESULTS`. `bytes` holds what each stream carried
    /// and `end_time` the test's duration in seconds as text.
    pub fn results(&mut self, bytes: &[u64], end_time: &[u8]) -> (r: Result<Vec<u8>, SessionError>)
        requires
            old(self).phase == SessionPhase::Results,
            bytes@.len() < usize::MAX - 2,
        ensures
            ({
                let j = results_spec(bytes@, end_time@, old(self).reverse);
                &&& j.len() <= u32::MAX ==> (r matches Ok(m) && m@ == be32(j.len() as u32) + j + seq![DISPLAY_RESULTS]
                    && final(self).phase == SessionPhase::Display)
                &&& j.len() > u32::MAX ==> r == Err::<Vec<u8>, SessionError>(SessionError::Frame(FrameError::TooLarge))
                    && final(self).phase == SessionPhase::Failed
            }),
            final(self).reverse == old(self).reverse,
    {
        let json = results_json(bytes, end_time, self.reverse);
        match json_frame(json.as_slice()) {
            Ok(mut frame) => {
                frame.push(DISPLAY_RESULTS);
                self.phase = SessionPhase::Display;
                Ok(frame)
            },
            Err(e) => {
                self.phase = SessionPhase::Failed;
                Err(SessionError::Frame(e))
            },
        }
    }

    /// Takes the client's last state byte, which must be `IPERF_DONE`.
    pub fn on_final_state(&mut self, state: u8) -> (r: Result<(), SessionError>)
        requires
            old(self).phase == SessionPhase::Display,
        ensures
            state == IPERF_DONE ==> r is Ok && final(self).phase == SessionPhase::Done,
            state != IPERF_DONE ==> r == Err::<(), SessionError>(SessionError::UnexpectedState { expected: IPERF_DONE, got: state })
                && final(self).phase == SessionPhase::Failed,
            final(self).reverse == old(self).reverse,
    {
        if state == IPERF_DONE {
            self.phase = SessionPhase::Done;
            Ok(())
        } else {
            self.phase = SessionPhase::Failed;
            Err(SessionError::UnexpectedState { expected: IPERF_DONE, got: state })
        }
    }
}

/// What a data-stream read or write gave.
#[derive(PartialEq, Eq, Debug, Clone, Copy, Structural)]
pub enum Transfer {
    /// `n` bytes moved (`n` > 0).
    Moved(usize),
    /// The connection closed (a read or write of 0 bytes).
    Closed,
    /// The operation timed out, would block or was interrupted: try again.
    Retry,
    /// Another error.
    Failed,
}

/// The byte count of a data stream after one transfer: `None` when the
/// stream stops (closed or failed), else the count grown by what moved.
pub fn transfer_step(total: u64, t: Transfer) -> (r: Option<u64>)
    ensures
        match t {
            Transfer::Moved(n) => r == Some((if total + n > u64::MAX { u64::MAX as int } else { total + n }) as u64),
            Transfer::Retry => r == Some(total),
            _ => r is None,
        },
{
    match t {
        Transfer::Moved(n) => Some(total.saturating_add(n as u64)),
        Transfer::Retry => Some(total),
        _ => None,
    }
}


/// The reported stream ids are distinct, and none is 2.
pub proof fn lemma_stream_ids(i: nat, j: nat)
    ensures
        stream_id(i) != 2,
        i != j ==> stream_id(i) != stream_id(j),
{
}


/// How the object of a stream begins: its id (1, 3, 4, 5, ... by position)
/// and the bytes it carried.
pub open spec fn stream_start(index: nat, bytes: u64) -> Seq<u8> {
    "{\"id\":".spec_bytes() + dec(if index == 0 { 1 } else { index + 2 }) + ",\"bytes\":".spec_bytes() + dec(bytes as nat)
        + ",".spec_bytes()
}

proof fn lemma_streams_prefix(bytes: Seq<u64>, end_time: Seq<u8>, sender: bool, i: nat, m: nat)
    requires
        i < m,
    ensures
        streams_json(bytes, i + 1, end_time, sender).len() <= streams_json(bytes, m, end_time, sender).len(),
        streams_json(bytes, m, end_time, sender).subrange(0, streams_json(bytes, i + 1, end_time, sender).len() as int)
            == streams_json(bytes, i + 1, end_time, sender),
    decreases m,
{
    let a = streams_json(bytes, i + 1, end_time, sender);
    if m == i + 1 {
        assert(a.subrange(0, a.len() as int) =~= a);
    } else {
        lemma_streams_prefix(bytes, end_time, sender, i, (m - 1) as nat);
        let b = streams_json(bytes, (m - 1) as nat, end_time, sender);
        let c = streams_json(bytes, m, end_time, sender);
        assert(c == b + ",".spec_bytes() + stream_json((m - 1) as nat, bytes[m - 1], end_time, sender));
        assert(c.subrange(0, a.len() as int) =~= b.subrange(0, a.len() as int));
    }
}

proof fn lemma_stream_starts(i: nat, b: u64, end_time: Seq<u8>, sender: bool)
    ensures
        stream_start(i, b).len() <= stream_json(i, b, end_time, sender).len(),
        stream_json(i, b, end_time, sender).subrange(0, stream_start(i, b).len() as int) == stream_start(i, b),
{
    reveal_strlit(",\"retransmits\":");
    reveal_strlit(",");
    vstd::string::is_ascii_spec_bytes(",\"retransmits\":");
    vstd::string::is_ascii_spec_bytes(",");
    let obj = stream_json(i, b, end_time, sender);
    let front = "{\"id\":".spec_bytes() + dec(stream_id(i)) + ",\"bytes\":".spec_bytes() + dec(b as nat);
    let rest = ",\"retransmits\":".spec_bytes() + retransmits(sender)
        + ",\"jitter\":0,\"errors\":0,\"omitted_errors\":0,\"packets\":0,\"omitted_packets\":0,\"start_time\":0,\"end_time\":".spec_bytes()
        + end_time + "}".spec_bytes();
    assert(obj =~= front + rest);
    assert(stream_start(i, b) =~= front + ",".spec_bytes());
    assert(rest[0] == 0x2c);
    assert(obj.subrange(0, stream_start(i, b).len() as int) =~= stream_start(i, b));
}

proof fn lemma_occurs_inside(r: Seq<u8>, head: Seq<u8>, all: Seq<u8>, tail: Seq<u8>, x: Seq<u8>, obj: Seq<u8>, needle: Seq<u8>)
    requires
        r == head + all + tail,
        x.len() + obj.len() <= all.len(),
        all.subrange(0, (x.len() + obj.len()) as int) == x + obj,
        needle.len() <= obj.len(),
        obj.subrange(0, needle.len() as int) == needle,
    ensures
        occurs_at(r, needle, (head.len() + x.len()) as int),
{
    let k: int = (head.len() + x.len()) as int;
    assert forall|j: int| 0 <= j < needle.len() implies #[trigger] r.subrange(k, k + needle.len() as int)[j] == needle[j] by {
        assert(r.subrange(k, k + needle.len() as int)[j] == r[k + j]);
        assert(r[k + j] == (head + all)[k + j]);
        assert((head + all)[k + j] == all[x.len() + j]);
        assert(all[x.len() + j] == all.subrange(0, (x.len() + obj.len()) as int)[x.len() + j]);
        assert((x + obj)[x.len() + j] == obj[j]);
        assert(needle[j] == obj.subrange(0, needle.len() as int)[j]);
        assert(obj.subrange(0, needle.len() as int)[j] == obj[j]);
    }
    assert(r.subrange(k, k + needle.len() as int) =~= needle);
}

/// In the results, the stream at position `i` reports the bytes of the
/// `i`-th stream, under its own id.
pub proof fn lemma_results_streams(bytes: Seq<u64>, end_time: Seq<u8>, sender: bool, i: nat)
    requires
        i < bytes.len(),
    ensures
        contains(results_spec(bytes, end_time, sender), stream_start(i, bytes[i as int])),
{
    let n = bytes.len();
    let head = "{\"cpu_util_total\":0,\"cpu_util_user\":0,\"cpu_util_system\":0,\"sender_has_retransmits\":".spec_bytes()
        + retransmits(sender) + ",\"streams\":[".spec_bytes();
    let all = streams_json(bytes, n, end_time, sender);
    let r = results_spec(bytes, end_time, sender);
    assert(r == head + all + "]}".spec_bytes());
    lemma_streams_prefix(bytes, end_time, sender, i, n);
    let obj = stream_json(i, bytes[i as int], end_time, sender);
    let x: Seq<u8> = if i == 0 { seq![] } else { streams_json(bytes, i, end_time, sender) + ",".spec_bytes() };
    assert(streams_json(bytes, i + 1, end_time, sender) =~= x + obj);
    lemma_stream_starts(i, bytes[i as int], end_time, sender);
    lemma_occurs_inside(r, head, all, "]}".spec_bytes(), x, obj, stream_start(i, bytes[i as int]));
}

} // verus!
