//! Decoding of `Transfer-Encoding: chunked` upload bodies.
//!
//! [`ChunkedBody`] is the decoder as a state machine: it names the next read
//! it needs ([`ChunkedBody::action`]) and is told what the read gave.
//! [`read_chunked_body`] runs it over a body held in memory.
use vstd::prelude::*;
use vstd::utf8::*;
use vstd::string::StringSliceAdditionalSpecFns;
use crate::limits::{BLOCK, MAX_CHUNK_LINE, MAX_HEADER, MAX_UPLOAD};
use crate::line::{LineError, line_outcome, lemma_newline_end, newline_end, read_line_limited};
use crate::text::{find, find_byte, lemma_find_byte, parse_unsigned, parse_unsigned_spec, trim, trimmed};

verus! {

/// Why a chunked body was refused.
#[derive(PartialEq, Eq, Debug, Clone, Copy, Structural)]
pub enum ChunkError {
    /// The body exceeds the upload limit, or a line exceeds its limit.
    TooLarge,
    /// A size line, trailer or chunk terminator is malformed.
    Invalid,
    /// The body ended early.
    UnexpectedEof,
}

/// The chunk error for a failed line read.
pub open spec fn line_error(e: LineError) -> ChunkError {
    match e {
        LineError::TooLarge => ChunkError::TooLarge,
        LineError::UnexpectedEof => ChunkError::UnexpectedEof,
        LineError::InvalidData => ChunkError::Invalid,
    }
}

/// The size a chunk-size line announces: the hexadecimal number (with an
/// optional `+`) before the first `;` of the trimmed line.
pub open spec fn chunk_size_spec(line: Seq<u8>) -> Option<nat> {
    let t = trimmed(line);
    match parse_unsigned_spec(t.subrange(0, find_byte(t, 0x3b, 0)), 16, u64::MAX as nat) {
        Ok(v) => Some(v),
        Err(_) => None,
    }
}

/// Whether a trailer line ends the trailer section.
pub open spec fn is_blank_line(line: Seq<u8>) -> bool {
    line == seq![0x0du8, 0x0au8] || line == seq![0x0au8]
}

/// Outcome of decoding `input` from a chunk-size line on, with `received`
/// bytes of data already decoded: the total data length, or the error.
pub open spec fn body_from(input: Seq<u8>, received: nat) -> Result<nat, ChunkError>
    decreases input.len(), 2int,
{
    match line_outcome(input, MAX_CHUNK_LINE as nat) {
        Err(e) => Err(line_error(e)),
        Ok(n) => {
            let line = input.subrange(0, n as int);
            if !valid_utf8(line) {
                Err(ChunkError::Invalid)
            } else {
                match chunk_size_spec(line) {
                    None => Err(ChunkError::Invalid),
                    Some(size) => {
                        proof {
                            lemma_newline_end(input, 0);
                        }
                        if size == 0 {
                            trailers_from(input.subrange(n as int, input.len() as int), MAX_HEADER as nat, received)
                        } else if received + size > MAX_UPLOAD {
                            Err(ChunkError::TooLarge)
                        } else {
                            data_from(input.subrange(n as int, input.len() as int), size, received)
                        }
                    },
                }
            }
        },
    }
}

/// Outcome from inside a chunk's data, `remaining` bytes of it still to read.
pub open spec fn data_from(input: Seq<u8>, remaining: nat, received: nat) -> Result<nat, ChunkError>
    decreases input.len(), 1int,
{
    if input.len() < remaining {
        Err(ChunkError::UnexpectedEof)
    } else if remaining == 0 {
        terminator_from(input, received)
    } else {
        terminator_from(input.subrange(remaining as int, input.len() as int), received + remaining)
    }
}

/// Outcome from a chunk's closing CRLF on.
pub open spec fn terminator_from(input: Seq<u8>, received: nat) -> Result<nat, ChunkError>
    decreases input.len(), 0int,
{
    if input.len() < 2 {
        Err(ChunkError::UnexpectedEof)
    } else if input[0] != 0x0d || input[1] != 0x0a {
        Err(ChunkError::Invalid)
    } else {
        body_from(input.subrange(2, input.len() as int), received)
    }
}

/// Outcome from the trailer section on, which may hold `budget` more bytes.
pub open spec fn trailers_from(input: Seq<u8>, budget: nat, received: nat) -> Result<nat, ChunkError>
    decreases input.len(), 0int,
{
    match line_outcome(input, budget) {
        Err(e) => Err(line_error(e)),
        Ok(n) => {
            let line = input.subrange(0, n as int);
            if !valid_utf8(line) {
                Err(ChunkError::Invalid)
            } else if is_blank_line(line) {
                Ok(received)
            } else {
                proof {
                    lemma_newline_end(input, 0);
                }
                trailers_from(input.subrange(n as int, input.len() as int), (budget - n) as nat, received)
            }
        },
    }
}

/// Outcome of decoding a whole chunked body: its data length, or the error.
pub open spec fn decode_chunked(input: Seq<u8>) -> Result<nat, ChunkError> {
    body_from(input, 0)
}


/// Where the decoder stands.
#[derive(PartialEq, Eq, Debug, Clone, Copy, Structural)]
pub enum ChunkPhase {
    /// Expecting a chunk-size line.
    SizeLine,
    /// Inside a chunk, `remaining` data bytes still to read.
    Data { remaining: u64 },
    /// Expecting the CRLF that closes a chunk.
    Terminator,
    /// Inside the trailer section, which may hold `budget` more bytes.
    Trailers { budget: usize },
    /// The body is complete.
    Done,
    /// The body was refused.
    Failed { error: ChunkError },
}

/// The read the decoder needs next, or its result.
#[derive(PartialEq, Eq, Debug, Clone, Copy, Structural)]
pub enum ChunkAction {
    /// Read one line of at most `limit` bytes and hand it to [`ChunkedBody::on_line`].
    ReadLine { limit: usize },
    /// Read exactly `count` bytes and report them to [`ChunkedBody::on_data`].
    ReadData { count: usize },
    /// Read exactly 2 bytes and hand them to [`ChunkedBody::on_terminator`].
    ReadTerminator,
    /// The body is complete and held `received` data bytes.
    Finished { received: u64 },
    /// The body was refused.
    Failed { error: ChunkError },
}

/// A chunked-body decoder.
pub struct ChunkedBody {
    pub phase: ChunkPhase,
    /// Data bytes decoded so far.
    pub received: u64,
}

/// Whether `line` is one complete line that fits `limit`: it ends with its
/// only `\n`.
pub open spec fn is_line(line: Seq<u8>, limit: nat) -> bool {
    &&& 1 <= line.len() <= limit
    &&& line[line.len() - 1] == 0x0a
    &&& forall|k: int| 0 <= k < line.len() - 1 ==> #[trigger] line[k] != 0x0a
}

impl ChunkedBody {
    pub open spec fn wf(self) -> bool {
        &&& self.received <= MAX_UPLOAD
        &&& match self.phase {
            ChunkPhase::Data { remaining } => remaining > 0 && self.received + remaining <= MAX_UPLOAD,
            ChunkPhase::Trailers { budget } => budget <= MAX_HEADER,
            _ => true,
        }
    }

    /// What decoding `input` from this state gives.
    #[verifier::opaque]
    pub open spec fn outcome(self, input: Seq<u8>) -> Result<nat, ChunkError> {
        match self.phase {
            ChunkPhase::SizeLine => body_from(input, self.received as nat),
            ChunkPhase::Data { remaining } => data_from(input, remaining as nat, self.received as nat),
            ChunkPhase::Terminator => terminator_from(input, self.received as nat),
            ChunkPhase::Trailers { budget } => trailers_from(input, budget as nat, self.received as nat),
            ChunkPhase::Done => Ok(self.received as nat),
            ChunkPhase::Failed { error } => Err(error),
        }
    }

    /// The line limit of the line the decoder expects.
    pub open spec fn line_limit(self) -> nat {
        match self.phase {
            ChunkPhase::Trailers { budget } => budget as nat,
            _ => MAX_CHUNK_LINE as nat,
        }
    }

    pub open spec fn action_spec(self) -> ChunkAction {
        match self.phase {
            ChunkPhase::SizeLine => ChunkAction::ReadLine { limit: MAX_CHUNK_LINE },
            ChunkPhase::Data { remaining } => ChunkAction::ReadData {
                count: if remaining < BLOCK as u64 { remaining as usize } else { BLOCK },
            },
            ChunkPhase::Terminator => ChunkAction::ReadTerminator,
            ChunkPhase::Trailers { budget } => ChunkAction::ReadLine { limit: budget },
            ChunkPhase::Done => ChunkAction::Finished { received: self.received },
            ChunkPhase::Failed { error } => ChunkAction::Failed { error },
        }
    }

    /// The state after a line read, which gave the `line` bytes or failed.
    pub open spec fn after_line(self, line: Result<Seq<u8>, LineError>) -> ChunkedBody {
        match line {
            Err(e) => ChunkedBody { phase: ChunkPhase::Failed { error: line_error(e) }, ..self },
            Ok(l) => match self.phase {
                ChunkPhase::Trailers { budget } => if is_blank_line(l) {
                    ChunkedBody { phase: ChunkPhase::Done, ..self }
                } else {
                    ChunkedBody { phase: ChunkPhase::Trailers { budget: (budget - l.len()) as usize }, ..self }
                },
                _ => match chunk_size_spec(l) {
                    None => ChunkedBody { phase: ChunkPhase::Failed { error: ChunkError::Invalid }, ..self },
                    Some(size) => if size == 0 {
                        ChunkedBody { phase: ChunkPhase::Trailers { budget: MAX_HEADER }, ..self }
                    } else if self.received + size > MAX_UPLOAD {
                        ChunkedBody { phase: ChunkPhase::Failed { error: ChunkError::TooLarge }, ..self }
                    } else {
                        ChunkedBody { phase: ChunkPhase::Data { remaining: size as u64 }, ..self }
                    },
                },
            },
        }
    }

    /// The state after `count` data bytes were read.
    pub open spec fn after_data(self, count: nat) -> ChunkedBody {
        match self.phase {
            ChunkPhase::Data { remaining } => if count == remaining {
                ChunkedBody { phase: ChunkPhase::Terminator, received: (self.received + count) as u64 }
            } else {
                ChunkedBody {
                    phase: ChunkPhase::Data { remaining: (remaining - count) as u64 },
                    received: (self.received + count) as u64,
                }
            },
            _ => self,
        }
    }

    /// The state after the chunk terminator read gave `bytes`.
    pub open spec fn after_terminator(self, bytes: Seq<u8>) -> ChunkedBody {
        if bytes[0] == 0x0d && bytes[1] == 0x0a {
            ChunkedBody { phase: ChunkPhase::SizeLine, ..self }
        } else {
            ChunkedBody { phase: ChunkPhase::Failed { error: ChunkError::Invalid }, ..self }
        }
    }

    /// A decoder at the start of a body.
    pub fn new() -> (r: ChunkedBody)
        ensures
            r.wf(),
            r.phase == ChunkPhase::SizeLine,
            r.received == 0,
    {
        ChunkedBody { phase: ChunkPhase::SizeLine, received: 0 }
    }

    /// The read the decoder needs next: a line for chunk sizes and trailers,
    /// data in blocks of at most [`BLOCK`] bytes, the 2-byte chunk terminator;
    /// or the result.
    pub fn action(&self) -> (r: ChunkAction)
        requires
            self.wf(),
        ensures
            r == self.action_spec(),
    {
        match self.phase {
            ChunkPhase::SizeLine => ChunkAction::ReadLine { limit: MAX_CHUNK_LINE },
            ChunkPhase::Data { remaining } => ChunkAction::ReadData {
                count: if remaining < BLOCK as u64 { remaining as usize } else { BLOCK },
            },
            ChunkPhase::Terminator => ChunkAction::ReadTerminator,
            ChunkPhase::Trailers { budget } => ChunkAction::ReadLine { limit: budget },
            ChunkPhase::Done => ChunkAction::Finished { received: self.received },
            ChunkPhase::Failed { error } => ChunkAction::Failed { error },
        }
    }

    /// Takes the result of the line read that [`ChunkedBody::action`] asked for.
    pub fn on_line(&mut self, line: Result<&str, LineError>)
        requires
            old(self).wf(),
            old(self).phase is SizeLine || old(self).phase is Trailers,
            line matches Ok(s) ==> is_line(s.spec_bytes(), old(self).line_limit()),
        ensures
            final(self).wf(),
            *final(self) == old(self).after_line(
                match line {
                    Ok(s) => Ok(s.spec_bytes()),
                    Err(e) => Err(e),
                },
            ),
    {
        match line {
            Err(e) => {
                let error = match e {
                    LineError::TooLarge => ChunkError::TooLarge,
                    LineError::UnexpectedEof => ChunkError::UnexpectedEof,
                    LineError::InvalidData => ChunkError::Invalid,
                };
                self.phase = ChunkPhase::Failed { error };
            },
            Ok(s) => {
                let bytes = s.as_bytes();
                match self.phase {
                    ChunkPhase::Trailers { budget } => {
                        let blank = (bytes.len() == 2 && bytes[0] == 0x0d && bytes[1] == 0x0a) || (
                        bytes.len() == 1 && bytes[0] == 0x0a);
                        proof {
                            if blank {
                                if bytes@.len() == 2 {
                                    assert(bytes@ =~= seq![0x0du8, 0x0au8]);
                                } else {
                                    assert(bytes@ =~= seq![0x0au8]);
                                }
                            }
                        }
                        if blank {
                            self.phase = ChunkPhase::Done;
                        } else {
                            self.phase = ChunkPhase::Trailers { budget: budget - bytes.len() };
                        }
                    },
                    _ => {
                        match chunk_size(bytes) {
                            None => {
                                self.phase = ChunkPhase::Failed { error: ChunkError::Invalid };
                            },
                            Some(size) => {
                                if size == 0 {
                                    self.phase = ChunkPhase::Trailers { budget: MAX_HEADER };
                                } else if size > MAX_UPLOAD - self.received {
                                    self.phase = ChunkPhase::Failed { error: ChunkError::TooLarge };
                                } else {
                                    self.phase = ChunkPhase::Data { remaining: size };
                                }
                            },
                        }
                    },
                }
            },
        }
    }

    /// Takes the `count` data bytes that the read [`ChunkedBody::action`]
    /// asked for delivered in full.
    pub fn on_data(&mut self, count: usize)
        requires
            old(self).wf(),
            old(self).action_spec() == (ChunkAction::ReadData { count }),
        ensures
            final(self).wf(),
            *final(self) == old(self).after_data(count as nat),
    {
        if let ChunkPhase::Data { remaining } = self.phase {
            self.received = self.received + count as u64;
            if count as u64 == remaining {
                self.phase = ChunkPhase::Terminator;
            } else {
                self.phase = ChunkPhase::Data { remaining: remaining - count as u64 };
            }
        }
    }

    /// Takes the 2 bytes of the terminator read.
    pub fn on_terminator(&mut self, bytes: &[u8])
        requires
            old(self).wf(),
            old(self).phase is Terminator,
            bytes@.len() == 2,
        ensures
            final(self).wf(),
            *final(self) == old(self).after_terminator(bytes@),
    {
        if bytes[0] == 0x0d && bytes[1] == 0x0a {
            self.phase = ChunkPhase::SizeLine;
        } else {
            self.phase = ChunkPhase::Failed { error: ChunkError::Invalid };
        }
    }

    /// The body ended before a data or terminator read was complete.
    pub fn on_eof(&mut self)
        requires
            old(self).wf(),
            old(self).phase is Data || old(self).phase is Terminator,
        ensures
            final(self).wf(),
            final(self).received == old(self).received,
            final(self).phase == (ChunkPhase::Failed { error: ChunkError::UnexpectedEof }),
    {
        self.phase = ChunkPhase::Failed { error: ChunkError::UnexpectedEof };
    }
}

/// The size announced by a chunk-size line.
pub fn chunk_size(line: &[u8]) -> (r: Option<u64>)
    ensures
        match chunk_size_spec(line@) {
            Some(v) => r == Some(v as u64),
            None => r is None,
        },
        chunk_size_spec(line@) matches Some(v) ==> v <= u64::MAX,
{
    let (a, b) = trim(line);
    let t = &line[a..b];
    assert(t@ == trimmed(line@));
    let semi = find(t, 0x3b, 0);
    proof {
        lemma_find_byte(t@, 0x3b, 0);
    }
    match parse_unsigned(&t[0..semi], 16, u64::MAX) {
        Ok(v) => Some(v),
        Err(_) => None,
    }
}


pub proof fn lemma_chunk_size_bound(line: Seq<u8>)
    ensures
        chunk_size_spec(line) matches Some(v) ==> v <= u64::MAX,
{
    let t = trimmed(line);
    let h = t.subrange(0, find_byte(t, 0x3b, 0));
    crate::text::lemma_digits_from_bound(h, 0, 0, 16, u64::MAX as nat, crate::text::IntError::PosOverflow);
    crate::text::lemma_digits_from_bound(h, 1, 0, 16, u64::MAX as nat, crate::text::IntError::PosOverflow);
}

/// A line read keeps the outcome: decoding `input` from `b` gives what
/// decoding the rest gives from the state after the read.
pub proof fn lemma_line_step(b: ChunkedBody, input: Seq<u8>)
    requires
        b.wf(),
        b.phase is SizeLine || b.phase is Trailers,
    ensures
        line_outcome(input, b.line_limit()) matches Ok(n) ==> 1 <= n <= input.len(),
        match line_outcome(input, b.line_limit()) {
            Err(e) => b.outcome(input) == b.after_line(Err(e)).outcome(input),
            Ok(n) => if valid_utf8(input.subrange(0, n as int)) {
                &&& is_line(input.subrange(0, n as int), b.line_limit())
                &&& b.after_line(Ok(input.subrange(0, n as int))).wf()
                &&& b.outcome(input) == b.after_line(Ok(input.subrange(0, n as int))).outcome(
                    input.subrange(n as int, input.len() as int),
                )
            } else {
                b.outcome(input) == b.after_line(Err(LineError::InvalidData)).outcome(input)
            },
        },
{
    reveal(ChunkedBody::outcome);
    lemma_newline_end(input, 0);
    if let Ok(n) = line_outcome(input, b.line_limit()) {
        lemma_chunk_size_bound(input.subrange(0, n as int));
        let l = input.subrange(0, n as int);
        assert forall|k: int| 0 <= k < l.len() - 1 implies #[trigger] l[k] != 0x0a by {
            assert(l[k] == input[k]);
        }
    }
}

/// A data read keeps the outcome.
pub proof fn lemma_data_step(b: ChunkedBody, input: Seq<u8>, count: usize)
    requires
        b.wf(),
        b.action_spec() == (ChunkAction::ReadData { count }),
    ensures
        count > 0,
        input.len() < count ==> b.outcome(input) == Err::<nat, ChunkError>(ChunkError::UnexpectedEof),
        input.len() >= count ==> b.after_data(count as nat).wf() && b.outcome(input) == b.after_data(count as nat).outcome(
            input.subrange(count as int, input.len() as int),
        ),
{
    reveal(ChunkedBody::outcome);
    if let ChunkPhase::Data { remaining } = b.phase {
        assert(count <= remaining);
        assert(count == remaining || count == BLOCK);
        if input.len() >= count && count < remaining {
            let rest = input.subrange(count as int, input.len() as int);
            let r2 = (remaining - count) as nat;
            if rest.len() >= r2 {
                assert(rest.subrange(r2 as int, rest.len() as int) =~= input.subrange(remaining as int, input.len() as int));
            }
        }
    }
}

/// A terminator read keeps the outcome.
pub proof fn lemma_terminator_step(b: ChunkedBody, input: Seq<u8>)
    requires
        b.wf(),
        b.phase is Terminator,
    ensures
        input.len() < 2 ==> b.outcome(input) == Err::<nat, ChunkError>(ChunkError::UnexpectedEof),
        input.len() >= 2 ==> b.after_terminator(input.subrange(0, 2)).wf() && b.outcome(input)
            == b.after_terminator(input.subrange(0, 2)).outcome(input.subrange(2, input.len() as int)),
{
    reveal(ChunkedBody::outcome);
}


/// Whether `b` has a result.
pub open spec fn is_settled(b: ChunkedBody) -> bool {
    b.phase is Done || b.phase is Failed
}

/// The part of `input` from `pos` on.
pub open spec fn rest_of(input: Seq<u8>, pos: int) -> Seq<u8> {
    input.subrange(pos, input.len() as int)
}

/// Feeds a line read from `input` at `pos`; returns the new position.
fn feed_line(body: &mut ChunkedBody, input: &[u8], pos: usize, limit: usize) -> (r: usize)
    requires
        old(body).wf(),
        old(body).phase is SizeLine || old(body).phase is Trailers,
        limit == old(body).line_limit(),
        pos <= input@.len(),
    ensures
        final(body).wf(),
        pos <= r <= input@.len(),
        final(body).outcome(rest_of(input@, r as int)) == old(body).outcome(rest_of(input@, pos as int)),
        r > pos || is_settled(*final(body)),
{
    let ghost rest = rest_of(input@, pos as int);
    let tail = &input[pos..input.len()];
    assert(tail@ == rest);
    proof {
        lemma_line_step(*body, rest);
    }
    let line = read_line_limited(tail, limit);
    let mut next = pos;
    match line {
        Ok(s) => {
            let n = s.len();
            proof {
                assert(rest_of(input@, pos + n) =~= rest.subrange(n as int, rest.len() as int));
            }
            next = pos + n;
        },
        Err(_) => {},
    }
    body.on_line(line);
    next
}

/// Feeds a data read from `input` at `pos`; returns the new position.
fn feed_data(body: &mut ChunkedBody, input: &[u8], pos: usize, count: usize) -> (r: usize)
    requires
        old(body).wf(),
        old(body).action_spec() == (ChunkAction::ReadData { count }),
        pos <= input@.len(),
    ensures
        final(body).wf(),
        pos <= r <= input@.len(),
        final(body).outcome(rest_of(input@, r as int)) == old(body).outcome(rest_of(input@, pos as int)),
        r > pos || is_settled(*final(body)),
{
    let ghost rest = rest_of(input@, pos as int);
    proof {
        lemma_data_step(*body, rest, count);
    }
    if input.len() - pos >= count {
        proof {
            assert(rest_of(input@, pos + count) =~= rest.subrange(count as int, rest.len() as int));
        }
        body.on_data(count);
        pos + count
    } else {
        body.on_eof();
        proof {
            reveal(ChunkedBody::outcome);
        }
        pos
    }
}

/// Feeds a terminator read from `input` at `pos`; returns the new position.
fn feed_terminator(body: &mut ChunkedBody, input: &[u8], pos: usize) -> (r: usize)
    requires
        old(body).wf(),
        old(body).phase is Terminator,
        pos <= input@.len(),
    ensures
        final(body).wf(),
        pos <= r <= input@.len(),
        final(body).outcome(rest_of(input@, r as int)) == old(body).outcome(rest_of(input@, pos as int)),
        r > pos || is_settled(*final(body)),
{
    let ghost rest = rest_of(input@, pos as int);
    proof {
        lemma_terminator_step(*body, rest);
    }
    if input.len() - pos >= 2 {
        let t = &input[pos..pos + 2];
        assert(t@ == rest.subrange(0, 2));
        proof {
            assert(rest_of(input@, pos + 2) =~= rest.subrange(2, rest.len() as int));
        }
        body.on_terminator(t);
        pos + 2
    } else {
        body.on_eof();
        proof {
            reveal(ChunkedBody::outcome);
        }
        pos
    }
}

/// Decodes a chunked body held in memory: the number of data bytes, or why
/// the body was refused. Chunks are read after hexadecimal size lines of at
/// most [`MAX_CHUNK_LINE`] bytes and must each end with CRLF; the data may
/// total at most [`MAX_UPLOAD`] bytes; a zero size starts the trailers, which
/// end with an empty line and may total at most [`MAX_HEADER`] bytes.
pub fn read_chunked_body(input: &[u8]) -> (r: Result<u64, ChunkError>)
    ensures
        match decode_chunked(input@) {
            Ok(n) => r == Ok::<u64, ChunkError>(n as u64),
            Err(e) => r == Err::<u64, ChunkError>(e),
        },
{
    let mut body = ChunkedBody::new();
    let mut pos: usize = 0;
    assert(rest_of(input@, 0) =~= input@);
    proof {
        reveal(ChunkedBody::outcome);
    }
    loop
        invariant
            body.wf(),
            pos <= input@.len(),
            body.outcome(rest_of(input@, pos as int)) == decode_chunked(input@),
        decreases input@.len() - pos + (if is_settled(body) { 0int } else { 1int }),
    {
        match body.action() {
            ChunkAction::Finished { received } => {
                proof {
                    reveal(ChunkedBody::outcome);
                }
                return Ok(received);
            },
            ChunkAction::Failed { error } => {
                proof {
                    reveal(ChunkedBody::outcome);
                }
                return Err(error);
            },
            ChunkAction::ReadLine { limit } => {
                pos = feed_line(&mut body, input, pos, limit);
            },
            ChunkAction::ReadData { count } => {
                pos = feed_data(&mut body, input, pos, count);
            },
            ChunkAction::ReadTerminator => {
                pos = feed_terminator(&mut body, input, pos);
            },
        }
    }
}


/// A decoded body never holds more than [`MAX_UPLOAD`] data bytes, and
/// never less than what was decoded before.
pub proof fn lemma_body_bounded(input: Seq<u8>, received: nat)
    requires
        received <= MAX_UPLOAD,
    ensures
        body_from(input, received) matches Ok(n) ==> received <= n <= MAX_UPLOAD,
    decreases input.len(), 2int,
{
    lemma_newline_end(input, 0);
    if let Ok(n) = line_outcome(input, MAX_CHUNK_LINE as nat) {
        let line = input.subrange(0, n as int);
        if valid_utf8(line) {
            if let Some(size) = chunk_size_spec(line) {
                let rest = input.subrange(n as int, input.len() as int);
                if size == 0 {
                    lemma_trailers_bounded(rest, MAX_HEADER as nat, received);
                } else if received + size <= MAX_UPLOAD {
                    lemma_data_bounded(rest, size, received);
                }
            }
        }
    }
}

proof fn lemma_data_bounded(input: Seq<u8>, remaining: nat, received: nat)
    requires
        received + remaining <= MAX_UPLOAD,
    ensures
        data_from(input, remaining, received) matches Ok(n) ==> received <= n <= MAX_UPLOAD,
    decreases input.len(), 1int,
{
    if input.len() >= remaining {
        if remaining == 0 {
            lemma_terminator_bounded(input, received);
        } else {
            lemma_terminator_bounded(input.subrange(remaining as int, input.len() as int), received + remaining);
        }
    }
}

proof fn lemma_terminator_bounded(input: Seq<u8>, received: nat)
    requires
        received <= MAX_UPLOAD,
    ensures
        terminator_from(input, received) matches Ok(n) ==> received <= n <= MAX_UPLOAD,
    decreases input.len(), 0int,
{
    if input.len() >= 2 && input[0] == 0x0d && input[1] == 0x0a {
        lemma_body_bounded(input.subrange(2, input.len() as int), received);
    }
}

proof fn lemma_trailers_bounded(input: Seq<u8>, budget: nat, received: nat)
    ensures
        trailers_from(input, budget, received) matches Ok(n) ==> n == received,
    decreases input.len(), 0int,
{
    lemma_newline_end(input, 0);
    if let Ok(n) = line_outcome(input, budget) {
        let line = input.subrange(0, n as int);
        if valid_utf8(line) && !is_blank_line(line) {
            lemma_trailers_bounded(input.subrange(n as int, input.len() as int), (budget - n) as nat, received);
        }
    }
}

/// A chunked body is never decoded to more than [`MAX_UPLOAD`] bytes.
pub proof fn lemma_decoded_bounded(input: Seq<u8>)
    ensures
        decode_chunked(input) matches Ok(n) ==> n <= MAX_UPLOAD,
{
    lemma_body_bounded(input, 0);
}


/// Whether `b` is a hexadecimal digit, in either case.
pub open spec fn is_hex_char(b: u8) -> bool {
    (0x30 <= b <= 0x39) || (0x61 <= b <= 0x66) || (0x41 <= b <= 0x46)
}

/// The value of a hexadecimal digit of either case.
pub open spec fn hex_char_value(b: u8) -> nat {
    if 0x30 <= b <= 0x39 {
        (b - 0x30) as nat
    } else if 0x61 <= b <= 0x66 {
        (b - 0x61 + 10) as nat
    } else {
        (b - 0x41 + 10) as nat
    }
}

/// The value of the hexadecimal numeral `h`, digits of either case.
pub open spec fn hex_numeral_value(h: Seq<u8>) -> nat
    decreases h.len(),
{
    if h.len() == 0 {
        0
    } else {
        hex_numeral_value(h.drop_last()) * 16 + hex_char_value(h.last())
    }
}

proof fn lemma_hex_numeral_prefix(h: Seq<u8>, j: int)
    requires
        0 <= j <= h.len(),
    ensures
        hex_numeral_value(h.take(j)) <= hex_numeral_value(h),
    decreases h.len() - j,
{
    if j < h.len() {
        lemma_hex_numeral_prefix(h, j + 1);
        assert(h.take(j + 1).drop_last() =~= h.take(j));
    } else {
        assert(h.take(j) =~= h);
    }
}

proof fn lemma_hex_numeral_digits(h: Seq<u8>, i: int)
    requires
        0 <= i <= h.len(),
        forall|k: int| 0 <= k < h.len() ==> is_hex_char(#[trigger] h[k]),
        hex_numeral_value(h) <= u64::MAX,
    ensures
        crate::text::digits_from(h, i, hex_numeral_value(h.take(i)), 16, u64::MAX as nat, crate::text::IntError::PosOverflow)
            == Ok::<nat, crate::text::IntError>(hex_numeral_value(h)),
    decreases h.len() - i,
{
    if i < h.len() {
        assert(h.take(i + 1).drop_last() =~= h.take(i));
        assert(h.take(i + 1).last() == h[i]);
        assert(is_hex_char(h[i]));
        lemma_hex_numeral_prefix(h, i + 1);
        lemma_hex_numeral_digits(h, i + 1);
    } else {
        assert(h.take(i) =~= h);
    }
}

/// A chunk-size line whose trimmed text before any `;` is a hexadecimal
/// numeral announces that numeral's value, whichever case its digits are
/// written in (`a` and `A` both stand for 10).
pub proof fn lemma_chunk_size_hex(line: Seq<u8>, h: Seq<u8>, rest: Seq<u8>)
    requires
        trimmed(line) == h + rest,
        rest.len() == 0 || rest[0] == 0x3b,
        h.len() > 0,
        forall|k: int| 0 <= k < h.len() ==> is_hex_char(#[trigger] h[k]),
        hex_numeral_value(h) <= u64::MAX,
    ensures
        chunk_size_spec(line) == Some(hex_numeral_value(h)),
{
    let t = h + rest;
    assert forall|k: int| 0 <= k < h.len() implies #[trigger] t[k] != 0x3b by {
        assert(t[k] == h[k]);
    }
    crate::text::lemma_find_byte_at(t, 0x3b, 0, h.len() as int);
    assert(t.subrange(0, h.len() as int) =~= h);
    lemma_hex_numeral_digits(h, 0);
    assert(h.take(0) =~= Seq::<u8>::empty());
    assert(h[0] != 0x2b);
}

/// The usual chunk-size line: a hexadecimal numeral, in either case, then
/// CRLF.
pub proof fn lemma_chunk_size_line(h: Seq<u8>)
    requires
        h.len() > 0,
        forall|k: int| 0 <= k < h.len() ==> is_hex_char(#[trigger] h[k]),
        hex_numeral_value(h) <= u64::MAX,
    ensures
        chunk_size_spec(h + seq![0x0du8, 0x0au8]) == Some(hex_numeral_value(h)),
{
    let line = h + seq![0x0du8, 0x0au8];
    let n = h.len() as int;
    assert(line[0] == h[0]);
    assert(is_hex_char(h[0]));
    assert(crate::text::ws_len(line, 0) == 0);
    assert(crate::text::trim_start_from(line, 0) == 0);
    assert(line[n + 1] == 0x0a);
    assert(line[n] == 0x0d);
    assert(crate::text::ws_suffix_len(line, n + 2) == 1);
    assert(crate::text::ws_suffix_len(line, n + 1) == 1);
    assert(line[n - 1] == h[n - 1]);
    assert(is_hex_char(h[n - 1]));
    assert(crate::text::ws_len(line, n - 1) != 1);
    assert(crate::text::ws_len(line, n - 2) != 2);
    assert(crate::text::ws_len(line, n - 3) != 3);
    assert(crate::text::ws_suffix_len(line, n) == 0);
    assert(crate::text::trim_end_from(line, 0, n) == n);
    assert(crate::text::trim_end_from(line, 0, n + 1) == n);
    assert(crate::text::trim_end_from(line, 0, n + 2) == n);
    assert(line.subrange(0, n) =~= h + Seq::<u8>::empty());
    lemma_chunk_size_hex(line, h, Seq::<u8>::empty());
}

} // verus!
