//! Reading an HTTP request head: the request line, then header lines one by
//! one until the blank line, deciding the body framing or the rejection.
use vstd::prelude::*;
use vstd::string::StringSliceAdditionalSpecFns;
use crate::limits::MAX_HEADER;
use crate::line::LineError;
use crate::response::{response, response_spec};
use crate::text::{bytes_eq, digits_only, all_digits, eq_ignore_ascii_case, eq_ignore_case, find, find_byte,
    lemma_find_byte, next_token, parse_unsigned, parse_unsigned_spec, tokens, tokens_from, trim, trimmed,
    trim_start_from, token_end, lemma_trim_start_bounds, lemma_token_end_bounds};

verus! {

/// The request methods the server tells apart.
#[derive(PartialEq, Eq, Debug, Clone, Copy, Structural)]
pub enum Method {
    Get,
    Post,
    Other,
}

/// The method named by a request line's first token.
pub open spec fn method_of(t: Seq<u8>) -> Method {
    if t == "GET".spec_bytes() {
        Method::Get
    } else if t == "POST".spec_bytes() {
        Method::Post
    } else {
        Method::Other
    }
}

/// A valid request line: its method, its target, and whether it is HTTP/1.1.
#[derive(Debug)]
pub struct RequestLine {
    pub method: Method,
    pub target: Vec<u8>,
    pub http11: bool,
}

/// What the request line `line` holds: exactly three whitespace-separated
/// tokens, the version `HTTP/1.0` or `HTTP/1.1`, and a target starting with `/`.
pub open spec fn request_line_spec(line: Seq<u8>) -> Option<(Method, Seq<u8>, bool)> {
    let t = tokens(line);
    if t.len() == 3 && (t[2] == "HTTP/1.0".spec_bytes() || t[2] == "HTTP/1.1".spec_bytes()) && t[1].len() > 0
        && t[1][0] == 0x2f {
        Some((method_of(t[0]), t[1], t[2] == "HTTP/1.1".spec_bytes()))
    } else {
        None
    }
}

/// Why a request was refused before it was routed.
#[derive(PartialEq, Eq, Debug, Clone, Copy, Structural)]
pub enum Rejection {
    /// 431: the head exceeds [`MAX_HEADER`] bytes.
    HeadersTooLarge,
    /// 400: the request line could not be read.
    InvalidRequest,
    /// 400: the request line is malformed.
    InvalidRequestLine,
    /// 400: a header line could not be read.
    InvalidHeaders,
    /// 400: a header line has no `:`.
    InvalidHeader,
    /// 400: a header name is empty or holds a byte outside the token characters.
    InvalidHeaderName,
    /// 400: `Content-Length` repeats, or its value is not a `u64` in plain digits.
    InvalidContentLength,
    /// 400: `Transfer-Encoding` repeats, is not `chunked`, or the request is not HTTP/1.1.
    UnsupportedTransferEncoding,
    /// 417: `Expect` is not `100-continue`.
    UnsupportedExpectation,
    /// 400: both `Content-Length` and `Transfer-Encoding` frame the body.
    AmbiguousFraming,
}

pub open spec fn rejection_status(r: Rejection) -> u16 {
    match r {
        Rejection::HeadersTooLarge => 431,
        Rejection::UnsupportedExpectation => 417,
        _ => 400,
    }
}

pub open spec fn rejection_text(r: Rejection) -> Seq<u8> {
    match r {
        Rejection::HeadersTooLarge => "headers too large".spec_bytes(),
        Rejection::InvalidRequest => "invalid request".spec_bytes(),
        Rejection::InvalidRequestLine => "invalid request line".spec_bytes(),
        Rejection::InvalidHeaders => "invalid headers".spec_bytes(),
        Rejection::InvalidHeader => "invalid header".spec_bytes(),
        Rejection::InvalidHeaderName => "invalid header name".spec_bytes(),
        Rejection::InvalidContentLength => "invalid content length".spec_bytes(),
        Rejection::UnsupportedTransferEncoding => "unsupported transfer encoding".spec_bytes(),
        Rejection::UnsupportedExpectation => "unsupported expectation".spec_bytes(),
        Rejection::AmbiguousFraming => "ambiguous body framing".spec_bytes(),
    }
}

impl Rejection {
    /// The response that refuses the request.
    pub fn reply(&self) -> (r: Vec<u8>)
        ensures
            r@ == response_spec(rejection_status(*self), "text/plain".spec_bytes(), rejection_text(*self), false),
    {
        let (status, text): (u16, &str) = match self {
            Rejection::HeadersTooLarge => (431, "headers too large"),
            Rejection::InvalidRequest => (400, "invalid request"),
            Rejection::InvalidRequestLine => (400, "invalid request line"),
            Rejection::InvalidHeaders => (400, "invalid headers"),
            Rejection::InvalidHeader => (400, "invalid header"),
            Rejection::InvalidHeaderName => (400, "invalid header name"),
            Rejection::InvalidContentLength => (400, "invalid content length"),
            Rejection::UnsupportedTransferEncoding => (400, "unsupported transfer encoding"),
            Rejection::UnsupportedExpectation => (417, "unsupported expectation"),
            Rejection::AmbiguousFraming => (400, "ambiguous body framing"),
        };
        response(status, "text/plain", text.as_bytes(), false)
    }
}

/// The rejection when the request line could not be read.
pub fn request_line_failed(e: LineError) -> (r: Rejection)
    ensures
        r == (if e == LineError::TooLarge { Rejection::HeadersTooLarge } else { Rejection::InvalidRequest }),
{
    match e {
        LineError::TooLarge => Rejection::HeadersTooLarge,
        _ => Rejection::InvalidRequest,
    }
}

/// The rejection when a header line could not be read.
pub fn header_failed(e: LineError) -> (r: Rejection)
    ensures
        r == (if e == LineError::TooLarge { Rejection::HeadersTooLarge } else { Rejection::InvalidHeaders }),
{
    match e {
        LineError::TooLarge => Rejection::HeadersTooLarge,
        _ => Rejection::InvalidHeaders,
    }
}

/// Reads the request line.
pub fn parse_request_line(line: &str) -> (r: Option<RequestLine>)
    ensures
        match request_line_spec(line.spec_bytes()) {
            Some((m, t, h)) => r matches Some(l) && l.method == m && l.target@ == t && l.http11 == h,
            None => r is None,
        },
{
    let s = line.as_bytes();
    let ghost b = s@;
    let (a1, e1) = next_token(s, 0);
    let (a2, e2) = next_token(s, e1);
    let (a3, e3) = next_token(s, e2);
    let (a4, _) = next_token(s, e3);
    proof {
        lemma_trim_start_bounds(b, 0);
        lemma_trim_start_bounds(b, e1 as int);
        lemma_trim_start_bounds(b, e2 as int);
        lemma_trim_start_bounds(b, e3 as int);
        assert(tokens(b) == tokens_from(b, 0));
        if a1 < b.len() {
            assert(tokens_from(b, 0) == seq![b.subrange(a1 as int, e1 as int)] + tokens_from(b, e1 as int));
            if a2 < b.len() {
                assert(tokens_from(b, e1 as int) == seq![b.subrange(a2 as int, e2 as int)] + tokens_from(b, e2 as int));
                if a3 < b.len() {
                    assert(tokens_from(b, e2 as int) == seq![b.subrange(a3 as int, e3 as int)] + tokens_from(b, e3 as int));
                    if a4 < b.len() {
                        lemma_token_end_bounds(b, a4 as int);
                        assert(tokens_from(b, e3 as int).len() >= 1);
                    } else {
                        assert(tokens_from(b, e3 as int) =~= Seq::<Seq<u8>>::empty());
                    }
                } else {
                    assert(tokens_from(b, e2 as int) =~= Seq::<Seq<u8>>::empty());
                }
            } else {
                assert(tokens_from(b, e1 as int) =~= Seq::<Seq<u8>>::empty());
            }
        } else {
            assert(tokens_from(b, 0) =~= Seq::<Seq<u8>>::empty());
        }
    }
    if a3 >= s.len() || a4 < s.len() {
        return None;
    }
    let method = &s[a1..e1];
    let target = &s[a2..e2];
    let version = &s[a3..e3];
    let http10 = bytes_eq(version, "HTTP/1.0".as_bytes());
    let http11 = bytes_eq(version, "HTTP/1.1".as_bytes());
    if !(http10 || http11) || target.len() == 0 || target[0] != 0x2f {
        return None;
    }
    let m = if bytes_eq(method, "GET".as_bytes()) {
        Method::Get
    } else if bytes_eq(method, "POST".as_bytes()) {
        Method::Post
    } else {
        Method::Other
    };
    let mut t: Vec<u8> = Vec::new();
    crate::text::push_bytes(&mut t, target);
    assert(t@ =~= target@);
    Some(RequestLine { method: m, target: t, http11 })
}


/// Whether `b` may stand in a header name (an HTTP token character).
pub open spec fn is_token_byte(b: u8) -> bool {
    ||| 0x30 <= b <= 0x39
    ||| 0x41 <= b <= 0x5a
    ||| 0x61 <= b <= 0x7a
    ||| b == 0x21 || b == 0x23 || b == 0x24 || b == 0x25 || b == 0x26 || b == 0x27 || b == 0x2a
    ||| b == 0x2b || b == 0x2d || b == 0x2e || b == 0x5e || b == 0x5f || b == 0x60 || b == 0x7c || b == 0x7e
}

/// Whether `name` is a header name: non-empty, of token characters only.
pub open spec fn is_header_name(name: Seq<u8>) -> bool {
    name.len() > 0 && forall|i: int| 0 <= i < name.len() ==> is_token_byte(#[trigger] name[i])
}

fn header_name_ok(name: &[u8]) -> (r: bool)
    ensures
        r == is_header_name(name@),
{
    if name.len() == 0 {
        return false;
    }
    let mut i: usize = 0;
    while i < name.len()
        invariant
            i <= name@.len(),
            forall|k: int| 0 <= k < i ==> is_token_byte(#[trigger] name@[k]),
        decreases name@.len() - i,
    {
        let b = name[i];
        let ok = (0x30 <= b && b <= 0x39) || (0x41 <= b && b <= 0x5a) || (0x61 <= b && b <= 0x7a) || b == 0x21
            || b == 0x23 || b == 0x24 || b == 0x25 || b == 0x26 || b == 0x27 || b == 0x2a || b == 0x2b || b == 0x2d
            || b == 0x2e || b == 0x5e || b == 0x5f || b == 0x60 || b == 0x7c || b == 0x7e;
        if !ok {
            return false;
        }
        i = i + 1;
    }
    true
}

/// The state of a request head after its request line and some header lines.
#[derive(Debug)]
pub struct HeadParser {
    /// Whether the request is HTTP/1.1.
    pub http11: bool,
    /// Bytes of the head read so far, request line included.
    pub header_bytes: usize,
    /// The value of `Content-Length`, once seen.
    pub content_length: Option<u64>,
    /// Whether `Transfer-Encoding: chunked` was seen.
    pub chunked: bool,
    /// Whether `Expect: 100-continue` was seen.
    pub expect_continue: bool,
}

/// What a header line led to.
#[derive(PartialEq, Eq, Debug, Clone, Copy, Structural)]
pub enum HeaderStep {
    /// Read the next header line.
    More,
    /// The head is complete.
    End,
    /// The request is refused.
    Reject(Rejection),
}

/// Whether a header line is the blank line that ends the head.
pub open spec fn ends_head(line: Seq<u8>) -> bool {
    line == "\r\n".spec_bytes() || line == "\n".spec_bytes() || line.len() == 0
}

/// The header line `line` read in state `h`: the next state and step.
/// The head grows by the line and must stay within [`MAX_HEADER`] bytes; a
/// blank line ends it; otherwise the line is `name:value`, the value taken
/// without surrounding whitespace; `Content-Length` must be plain digits,
/// once; `Transfer-Encoding` must be `chunked`, once, on HTTP/1.1; `Expect`
/// must be `100-continue`; names are matched without regard to ASCII case,
/// and other headers are ignored.
pub open spec fn accept_spec(h: HeadParser, line: Seq<u8>) -> (HeadParser, HeaderStep) {
    let total = h.header_bytes + line.len();
    let h1 = HeadParser { header_bytes: if total > usize::MAX { usize::MAX } else { total as usize }, ..h };
    if total > MAX_HEADER {
        (h1, HeaderStep::Reject(Rejection::HeadersTooLarge))
    } else {
        line_spec(h, line)
    }
}

/// The header line `line` read in state `h`, leaving the head's size aside:
/// what [`accept_spec`] gives when the head stays within [`MAX_HEADER`] bytes.
pub open spec fn line_spec(h: HeadParser, line: Seq<u8>) -> (HeadParser, HeaderStep) {
    let total = h.header_bytes + line.len();
    let h1 = HeadParser { header_bytes: if total > usize::MAX { usize::MAX } else { total as usize }, ..h };
    if ends_head(line) {
        (h1, HeaderStep::End)
    } else {
        let colon = find_byte(line, 0x3a, 0);
        if colon >= line.len() {
            (h1, HeaderStep::Reject(Rejection::InvalidHeader))
        } else {
            let name = line.subrange(0, colon);
            let value = trimmed(line.subrange(colon + 1, line.len() as int));
            if !is_header_name(name) {
                (h1, HeaderStep::Reject(Rejection::InvalidHeaderName))
            } else if eq_ignore_case(name, "content-length".spec_bytes()) {
                if h.content_length is Some || value.len() == 0 || !all_digits(value) {
                    (h1, HeaderStep::Reject(Rejection::InvalidContentLength))
                } else {
                    match parse_unsigned_spec(value, 10, u64::MAX as nat) {
                        Ok(n) => (HeadParser { content_length: Some(n as u64), ..h1 }, HeaderStep::More),
                        Err(_) => (h1, HeaderStep::Reject(Rejection::InvalidContentLength)),
                    }
                }
            } else if eq_ignore_case(name, "transfer-encoding".spec_bytes()) {
                if h.chunked || !eq_ignore_case(value, "chunked".spec_bytes()) || !h.http11 {
                    (h1, HeaderStep::Reject(Rejection::UnsupportedTransferEncoding))
                } else {
                    (HeadParser { chunked: true, ..h1 }, HeaderStep::More)
                }
            } else if eq_ignore_case(name, "expect".spec_bytes()) {
                if !eq_ignore_case(value, "100-continue".spec_bytes()) {
                    (h1, HeaderStep::Reject(Rejection::UnsupportedExpectation))
                } else {
                    (HeadParser { expect_continue: true, ..h1 }, HeaderStep::More)
                }
            } else {
                (h1, HeaderStep::More)
            }
        }
    }
}

/// How the body of an accepted request head is framed.
#[derive(PartialEq, Eq, Debug, Clone, Copy, Structural)]
pub struct Framing {
    /// The `Content-Length`, 0 when absent.
    pub content_length: u64,
    /// Whether the body is chunked.
    pub chunked: bool,
    /// Whether the client waits for `100 Continue` before sending the body.
    pub expect_continue: bool,
}

impl HeadParser {
    /// Starts a head with the request line `line`: its parts and the parser
    /// for the header lines, or [`Rejection::InvalidRequestLine`].
    pub fn start(line: &str) -> (r: Result<(RequestLine, HeadParser), Rejection>)
        ensures
            match request_line_spec(line.spec_bytes()) {
                Some((m, t, h)) => r matches Ok((l, p)) && l.method == m && l.target@ == t && l.http11 == h
                    && p.http11 == h && p.header_bytes == line.spec_bytes().len() && p.content_length is None
                    && !p.chunked && !p.expect_continue,
                None => r == Err::<(RequestLine, HeadParser), Rejection>(Rejection::InvalidRequestLine),
            },
    {
        match parse_request_line(line) {
            Some(l) => {
                let h = l.http11;
                Ok((l, HeadParser { http11: h, header_bytes: line.as_bytes().len(), content_length: None, chunked: false, expect_continue: false }))
            },
            None => Err(Rejection::InvalidRequestLine),
        }
    }

    /// The longest next header line that keeps the head within [`MAX_HEADER`] bytes.
    pub fn line_limit(&self) -> (r: usize)
        ensures
            r == (if self.header_bytes >= MAX_HEADER { 0 } else { MAX_HEADER - self.header_bytes }),
    {
        MAX_HEADER.saturating_sub(self.header_bytes)
    }

    /// Takes the header line `line`, as [`accept_spec`] states.
    pub fn accept(&mut self, line: &str) -> (r: HeaderStep)
        ensures
            (*final(self), r) == accept_spec(*old(self), line.spec_bytes()),
    {
        let bytes = line.as_bytes();
        let ghost old_h = *self;
        self.header_bytes = self.header_bytes.saturating_add(bytes.len());
        if self.header_bytes > MAX_HEADER {
            return HeaderStep::Reject(Rejection::HeadersTooLarge);
        }
        if bytes_eq(bytes, "\r\n".as_bytes()) || bytes_eq(bytes, "\n".as_bytes()) || bytes.len() == 0 {
            return HeaderStep::End;
        }
        let colon = find(bytes, 0x3a, 0);
        proof {
            lemma_find_byte(bytes@, 0x3a, 0);
        }
        if colon >= bytes.len() {
            return HeaderStep::Reject(Rejection::InvalidHeader);
        }
        let name = &bytes[0..colon];
        let raw = &bytes[colon + 1..bytes.len()];
        let (va, vb) = trim(raw);
        let value = &raw[va..vb];
        assert(value@ == trimmed(raw@));
        if !header_name_ok(name) {
            return HeaderStep::Reject(Rejection::InvalidHeaderName);
        }
        if eq_ignore_ascii_case(name, "content-length".as_bytes()) {
            if self.content_length.is_some() || value.len() == 0 || !digits_only(value) {
                return HeaderStep::Reject(Rejection::InvalidContentLength);
            }
            match parse_unsigned(value, 10, u64::MAX) {
                Ok(n) => {
                    self.content_length = Some(n);
                    HeaderStep::More
                },
                Err(_) => HeaderStep::Reject(Rejection::InvalidContentLength),
            }
        } else if eq_ignore_ascii_case(name, "transfer-encoding".as_bytes()) {
            if self.chunked || !eq_ignore_ascii_case(value, "chunked".as_bytes()) || !self.http11 {
                return HeaderStep::Reject(Rejection::UnsupportedTransferEncoding);
            }
            self.chunked = true;
            HeaderStep::More
        } else if eq_ignore_ascii_case(name, "expect".as_bytes()) {
            if !eq_ignore_ascii_case(value, "100-continue".as_bytes()) {
                return HeaderStep::Reject(Rejection::UnsupportedExpectation);
            }
            self.expect_continue = true;
            HeaderStep::More
        } else {
            HeaderStep::More
        }
    }

    /// The body framing once the head is complete: refused when both a
    /// `Content-Length` and chunked transfer encoding were given.
    pub fn finish(&self) -> (r: Result<Framing, Rejection>)
        ensures
            self.chunked && self.content_length is Some ==> r == Err::<Framing, Rejection>(Rejection::AmbiguousFraming),
            !(self.chunked && self.content_length is Some) ==> r == Ok::<Framing, Rejection>(Framing {
                content_length: match self.content_length { Some(n) => n, None => 0 },
                chunked: self.chunked,
                expect_continue: self.expect_continue,
            }),
    {
        if self.chunked && self.content_length.is_some() {
            return Err(Rejection::AmbiguousFraming);
        }
        Ok(Framing {
            content_length: match self.content_length {
                Some(n) => n,
                None => 0,
            },
            chunked: self.chunked,
            expect_continue: self.expect_continue,
        })
    }
}


/// A head that is still being read, or complete, holds at most
/// [`MAX_HEADER`] bytes; a longer one is refused with 431.
pub proof fn lemma_head_bounded(h: HeadParser, line: Seq<u8>)
    ensures
        accept_spec(h, line).1 == HeaderStep::More || accept_spec(h, line).1 == HeaderStep::End
            ==> accept_spec(h, line).0.header_bytes <= MAX_HEADER,
        h.header_bytes + line.len() > MAX_HEADER ==> accept_spec(h, line).1 == HeaderStep::Reject(
            Rejection::HeadersTooLarge,
        ),
{
}


/// The header lines `lines` read one after another from state `h`: the
/// state and step after the last line, or after the first line that does not
/// ask for more.
pub open spec fn run_head(h: HeadParser, lines: Seq<Seq<u8>>) -> (HeadParser, HeaderStep)
    decreases lines.len(),
{
    if lines.len() == 0 {
        (h, HeaderStep::More)
    } else {
        let (h1, step) = accept_spec(h, lines[0]);
        if step == HeaderStep::More && lines.len() > 1 {
            run_head(h1, lines.drop_first())
        } else {
            (h1, step)
        }
    }
}

/// Whether `lines` form the rest of a head that would be accepted whatever
/// its size: each line but the last asks for more, and the last ends it.
pub open spec fn complete_head(h: HeadParser, lines: Seq<Seq<u8>>) -> bool
    decreases lines.len(),
{
    if lines.len() == 0 {
        false
    } else if lines.len() == 1 {
        line_spec(h, lines[0]).1 == HeaderStep::End
    } else {
        line_spec(h, lines[0]).1 == HeaderStep::More && complete_head(line_spec(h, lines[0]).0, lines.drop_first())
    }
}

/// The total length of `lines`.
pub open spec fn total_len(lines: Seq<Seq<u8>>) -> nat
    decreases lines.len(),
{
    if lines.len() == 0 {
        0
    } else {
        lines[0].len() + total_len(lines.drop_first())
    }
}

/// A whole head is accepted when its bytes, from the request line that
/// [`HeadParser::start`] counted in `h.header_bytes` to the blank line that
/// ends it, total at most [`MAX_HEADER`], and refused with 431 when they total
/// more, whatever the lines hold.
pub proof fn lemma_whole_head_bounded(h: HeadParser, lines: Seq<Seq<u8>>)
    requires
        complete_head(h, lines),
    ensures
        h.header_bytes + total_len(lines) <= MAX_HEADER ==> run_head(h, lines).1 == HeaderStep::End
            && run_head(h, lines).0.header_bytes == h.header_bytes + total_len(lines),
        h.header_bytes + total_len(lines) > MAX_HEADER ==> run_head(h, lines).1 == HeaderStep::Reject(
            Rejection::HeadersTooLarge,
        ),
    decreases lines.len(),
{
    let total = h.header_bytes + lines[0].len();
    let rest = lines.drop_first();
    assert(total_len(lines) == lines[0].len() + total_len(rest));
    if total <= MAX_HEADER {
        assert(accept_spec(h, lines[0]) == line_spec(h, lines[0]));
        assert(line_spec(h, lines[0]).0.header_bytes == total);
        if lines.len() > 1 {
            let h1 = line_spec(h, lines[0]).0;
            lemma_whole_head_bounded(h1, rest);
            assert(run_head(h, lines) == run_head(h1, rest));
        } else {
            assert(total_len(rest) == 0);
            assert(run_head(h, lines) == accept_spec(h, lines[0]));
        }
    } else {
        assert(accept_spec(h, lines[0]).1 == HeaderStep::Reject(Rejection::HeadersTooLarge));
        assert(run_head(h, lines) == accept_spec(h, lines[0]));
    }
}


/// A header line `name:value` whose name is a token other than
/// `Content-Length`, `Transfer-Encoding` and `Expect` is taken and ignored,
/// whatever its value holds, colons included: the name ends at the first
/// `:`. Only the head's size grows.
pub proof fn lemma_other_header_ignored(h: HeadParser, name: Seq<u8>, value: Seq<u8>)
    requires
        is_header_name(name),
        !eq_ignore_case(name, "content-length".spec_bytes()),
        !eq_ignore_case(name, "transfer-encoding".spec_bytes()),
        !eq_ignore_case(name, "expect".spec_bytes()),
        h.header_bytes + name.len() + 1 + value.len() <= MAX_HEADER,
    ensures
        accept_spec(h, name + seq![0x3au8] + value) == (
            HeadParser { header_bytes: (h.header_bytes + name.len() + 1 + value.len()) as usize, ..h },
            HeaderStep::More,
        ),
{
    let line = name + seq![0x3au8] + value;
    assert forall|k: int| 0 <= k < name.len() implies #[trigger] line[k] != 0x3a by {
        assert(line[k] == name[k]);
        assert(is_token_byte(name[k]));
    }
    assert(line[name.len() as int] == 0x3a);
    crate::text::lemma_find_byte_at(line, 0x3a, 0, name.len() as int);
    assert(line.subrange(0, name.len() as int) =~= name);
    reveal_strlit("\r\n");
    reveal_strlit("\n");
    vstd::string::is_ascii_spec_bytes("\r\n");
    vstd::string::is_ascii_spec_bytes("\n");
    assert(!is_token_byte(0x0d));
    assert(!is_token_byte(0x0a));
    assert(line[0] == name[0]);
    assert(!ends_head(line));
}

} // verus!
