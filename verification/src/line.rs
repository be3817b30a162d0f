//! Reading one protocol line (up to and including `\n`) under a length limit.
use vstd::prelude::*;
use vstd::utf8::*;
use vstd::string::StringSliceAdditionalSpecFns;
use crate::text::utf8_str;

verus! {

broadcast use vstd::utf8::decode_utf8_encode_utf8;

/// Why no line could be read.
#[derive(PartialEq, Eq, Debug, Clone, Copy, Structural)]
pub enum LineError {
    /// The line, with its `\n`, would be longer than the limit.
    TooLarge,
    /// The data ended before a `\n`.
    UnexpectedEof,
    /// The line is not UTF-8.
    InvalidData,
}

/// Position just past the first `\n` at or after `i`, or the length when there is none.
pub open spec fn newline_end(s: Seq<u8>, i: int) -> int
    decreases s.len() - i,
{
    if i < 0 || i >= s.len() {
        s.len() as int
    } else if s[i] == 0x0a {
        i + 1
    } else {
        newline_end(s, i + 1)
    }
}

/// Outcome of reading a line from `data` after `collected` bytes of it were
/// already taken: the total line length, or why there is no line.
pub open spec fn line_outcome_from(collected: nat, data: Seq<u8>, limit: nat) -> Result<nat, LineError> {
    let n = newline_end(data, 0);
    if collected + n > limit {
        Err(LineError::TooLarge)
    } else if n == 0 || data[n - 1] != 0x0a {
        Err(LineError::UnexpectedEof)
    } else {
        Ok((collected + n) as nat)
    }
}

/// Outcome of reading a line from the start of `data`.
pub open spec fn line_outcome(data: Seq<u8>, limit: nat) -> Result<nat, LineError> {
    line_outcome_from(0, data, limit)
}

pub proof fn lemma_newline_end(s: Seq<u8>, i: int)
    requires
        0 <= i <= s.len(),
    ensures
        i <= newline_end(s, i) <= s.len(),
        newline_end(s, i) > i ==> (s[newline_end(s, i) - 1] == 0x0a || newline_end(s, i) == s.len()),
        forall|k: int| i <= k < newline_end(s, i) - 1 ==> #[trigger] s[k] != 0x0a,
        newline_end(s, i) < s.len() ==> newline_end(s, i) > i && s[newline_end(s, i) - 1] == 0x0a,
        newline_end(s, i) == s.len() && s.len() > i && s[s.len() - 1] != 0x0a ==> forall|k: int|
            i <= k < s.len() ==> #[trigger] s[k] != 0x0a,
    decreases s.len() - i,
{
    if i < s.len() && s[i] != 0x0a {
        lemma_newline_end(s, i + 1);
    }
}

/// What to do with the bytes that are available next.
#[derive(PartialEq, Eq, Debug, Clone, Copy, Structural)]
pub enum LineStep {
    /// Nothing more is available: the data ended.
    Eof,
    /// Taking the available bytes would make the line longer than the limit.
    TooLarge,
    /// Take `count` bytes; the line is complete when `complete`.
    Take { count: usize, complete: bool },
}

/// The step on `available` bytes, when `collected` bytes of the line are already taken.
pub open spec fn line_step_spec(collected: nat, available: Seq<u8>, limit: nat) -> LineStep {
    let n = newline_end(available, 0);
    if available.len() == 0 {
        LineStep::Eof
    } else if collected + n > limit {
        LineStep::TooLarge
    } else {
        LineStep::Take { count: n as usize, complete: available[n - 1] == 0x0a }
    }
}

/// Decides what to take from the bytes available next while reading a line of
/// at most `limit` bytes, `collected` of which are already taken: up to and
/// including the first `\n`, or everything when there is none.
pub fn line_step(collected: usize, available: &[u8], limit: usize) -> (r: LineStep)
    ensures
        r == line_step_spec(collected as nat, available@, limit as nat),
{
    if available.len() == 0 {
        return LineStep::Eof;
    }
    let mut i: usize = 0;
    while i < available.len() && available[i] != 0x0a
        invariant
            i <= available@.len(),
            newline_end(available@, 0) == newline_end(available@, i as int),
        decreases available@.len() - i,
    {
        i = i + 1;
    }
    let count = if i < available.len() {
        i + 1
    } else {
        i
    };
    proof {
        lemma_newline_end(available@, 0);
    }
    if collected as u128 + count as u128 > limit as u128 {
        LineStep::TooLarge
    } else {
        LineStep::Take { count, complete: available[count - 1] == 0x0a }
    }
}

/// The text of a complete line: `InvalidData` when it is not UTF-8.
pub fn finish_line(line: &[u8]) -> (r: Result<&str, LineError>)
    ensures
        r is Ok <==> valid_utf8(line@),
        r matches Ok(s) ==> s.spec_bytes() == line@,
        r matches Err(e) ==> e == LineError::InvalidData,
{
    match utf8_str(line) {
        Some(s) => Ok(s),
        None => Err(LineError::InvalidData),
    }
}

/// Reads one line from the start of `input`, allowing at most `limit` bytes
/// including the `\n`. `TooLarge` when the line (or all of `input`, when it
/// holds no `\n`) is longer than `limit`; else `UnexpectedEof` without a `\n`;
/// else `InvalidData` when the line is not UTF-8; else the line.
pub fn read_line_limited(input: &[u8], limit: usize) -> (r: Result<&str, LineError>)
    ensures
        match line_outcome(input@, limit as nat) {
            Ok(n) => match r {
                Ok(s) => valid_utf8(input@.subrange(0, n as int)) && s.spec_bytes() == input@.subrange(0, n as int),
                Err(e) => e == LineError::InvalidData && !valid_utf8(input@.subrange(0, n as int)),
            },
            Err(e) => r == Err::<&str, LineError>(e),
        },
{
    proof {
        lemma_newline_end(input@, 0);
    }
    match line_step(0, input, limit) {
        LineStep::Eof => Err(LineError::UnexpectedEof),
        LineStep::TooLarge => Err(LineError::TooLarge),
        LineStep::Take { count, complete } => {
            if !complete {
                return Err(LineError::UnexpectedEof);
            }
            let line = &input[0..count];
            finish_line(line)
        },
    }
}

/// Reading a line does not depend on how the data arrives: bytes without a
/// `\n` that fit the limit can be taken first, and reading the rest gives the
/// same outcome as reading all of it at once; and a step that completes the
/// line, or finds it too long, decides the outcome whatever follows.
pub proof fn lemma_line_split(collected: nat, a: Seq<u8>, b: Seq<u8>, limit: nat)
    requires
        a.len() <= usize::MAX,
    ensures
        line_step_spec(collected, a, limit) == (LineStep::Take { count: a.len() as usize, complete: false })
            ==> line_outcome_from(collected, a + b, limit) == line_outcome_from(collected + a.len(), b, limit),
        line_step_spec(collected, a, limit) matches LineStep::Take { count, complete }
            ==> (complete ==> line_outcome_from(collected, a + b, limit) == Ok::<nat, LineError>((collected + count) as nat)),
        line_step_spec(collected, a, limit) == LineStep::TooLarge
            ==> line_outcome_from(collected, a + b, limit) == Err::<nat, LineError>(LineError::TooLarge),
{
    lemma_newline_end(a, 0);
    lemma_newline_end(a + b, 0);
    lemma_newline_end(b, 0);
    let n = newline_end(a, 0);
    if a.len() > 0 {
        lemma_newline_end_concat(a, b, 0);
    }
}

proof fn lemma_newline_end_concat(a: Seq<u8>, b: Seq<u8>, i: int)
    requires
        0 <= i <= a.len(),
    ensures
        newline_end(a, i) < a.len() || (newline_end(a, i) == a.len() && a.len() > i && a[a.len() - 1] == 0x0a)
            ==> newline_end(a + b, i) == newline_end(a, i),
        newline_end(a, i) == a.len() && !(a.len() > i && a[a.len() - 1] == 0x0a)
            ==> newline_end(a + b, i) == a.len() + newline_end(b, 0),
    decreases a.len() - i,
{
    if i < a.len() {
        if a[i] != 0x0a {
            lemma_newline_end_concat(a, b, i + 1);
        }
    } else {
        lemma_newline_end_shift(a, b, 0);
    }
}

proof fn lemma_newline_end_shift(a: Seq<u8>, b: Seq<u8>, j: int)
    requires
        0 <= j <= b.len(),
    ensures
        newline_end(a + b, a.len() + j) == a.len() + newline_end(b, j),
    decreases b.len() - j,
{
    if j < b.len() && b[j] != 0x0a {
        assert((a + b)[a.len() + j] == b[j]);
        lemma_newline_end_shift(a, b, j + 1);
    } else if j < b.len() {
        assert((a + b)[a.len() + j] == b[j]);
    }
}

} // verus!
