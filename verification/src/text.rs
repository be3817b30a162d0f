//! Byte-level text primitives shared by the HTTP and iperf3 parsers.
//!
//! Every function here works on the UTF-8 bytes of a string. Whitespace is
//! matched byte-wise against the UTF-8 encodings of the Unicode `White_Space`
//! characters, which is exact on well-formed UTF-8 because none of those
//! encodings begins with a continuation byte.
use vstd::prelude::*;
use vstd::utf8::*;
use vstd::string::StringSliceAdditionalSpecFns;

verus! {

broadcast use {vstd::utf8::encode_utf8_decode_utf8, vstd::utf8::encode_utf8_valid_utf8, vstd::utf8::decode_utf8_encode_utf8};

/// `u8::is_ascii_whitespace`: space, tab, line feed, form feed, carriage return.
pub open spec fn is_ascii_ws(b: u8) -> bool {
    b == 0x20 || b == 0x09 || b == 0x0a || b == 0x0c || b == 0x0d
}

/// Length of the UTF-8 encoding of a `White_Space` character starting at `i`
/// (`char::is_whitespace`), or 0 when no such character starts there.
/// The characters are U+0009..U+000D, U+0020, U+0085, U+00A0, U+1680,
/// U+2000..U+200A, U+2028, U+2029, U+202F, U+205F and U+3000.
pub open spec fn ws_len(s: Seq<u8>, i: int) -> int {
    if !(0 <= i < s.len()) {
        0
    } else if (0x09 <= s[i] <= 0x0d) || s[i] == 0x20 {
        1
    } else if i + 1 < s.len() && s[i] == 0xc2 && (s[i + 1] == 0x85 || s[i + 1] == 0xa0) {
        2
    } else if i + 2 < s.len() && ((s[i] == 0xe1 && s[i + 1] == 0x9a && s[i + 2] == 0x80) || (s[i]
        == 0xe2 && s[i + 1] == 0x80 && ((0x80 <= s[i + 2] <= 0x8a) || s[i + 2] == 0xa8 || s[i + 2]
        == 0xa9 || s[i + 2] == 0xaf)) || (s[i] == 0xe2 && s[i + 1] == 0x81 && s[i + 2] == 0x9f) || (
    s[i] == 0xe3 && s[i + 1] == 0x80 && s[i + 2] == 0x80)) {
        3
    } else {
        0
    }
}

/// Length of the encoding of a `White_Space` character that ends right before `end`.
pub open spec fn ws_suffix_len(s: Seq<u8>, end: int) -> int {
    if ws_len(s, end - 1) == 1 {
        1
    } else if ws_len(s, end - 2) == 2 {
        2
    } else if ws_len(s, end - 3) == 3 {
        3
    } else {
        0
    }
}

/// The position after the whitespace characters that start at `i` (`str::trim_start`).
pub open spec fn trim_start_from(s: Seq<u8>, i: int) -> int
    decreases s.len() - i,
{
    if 0 <= i && ws_len(s, i) > 0 {
        trim_start_from(s, i + ws_len(s, i))
    } else {
        i
    }
}

/// The position before the whitespace characters that end at `end`, not going below `start`.
pub open spec fn trim_end_from(s: Seq<u8>, start: int, end: int) -> int
    decreases end - start,
{
    if start < end && ws_suffix_len(s, end) > 0 && end - ws_suffix_len(s, end) >= start {
        trim_end_from(s, start, end - ws_suffix_len(s, end))
    } else {
        end
    }
}

/// `str::trim`: the bytes without leading and trailing whitespace characters.
pub open spec fn trimmed(s: Seq<u8>) -> Seq<u8> {
    let a = trim_start_from(s, 0);
    s.subrange(a, trim_end_from(s, a, s.len() as int))
}

/// End of the run of non-whitespace bytes that starts at `i`.
pub open spec fn token_end(s: Seq<u8>, i: int) -> int
    decreases s.len() - i,
{
    if i < 0 || i >= s.len() || ws_len(s, i) > 0 {
        i
    } else {
        token_end(s, i + 1)
    }
}

pub proof fn lemma_token_end_bounds(s: Seq<u8>, i: int)
    requires
        0 <= i <= s.len(),
    ensures
        i <= token_end(s, i) <= s.len(),
        i < s.len() && ws_len(s, i) == 0 ==> token_end(s, i) > i,
    decreases s.len() - i,
{
    if i < s.len() && ws_len(s, i) == 0 {
        lemma_token_end_bounds(s, i + 1);
    }
}

pub proof fn lemma_trim_start_bounds(s: Seq<u8>, i: int)
    requires
        0 <= i <= s.len(),
    ensures
        i <= trim_start_from(s, i) <= s.len(),
        trim_start_from(s, i) < s.len() ==> ws_len(s, trim_start_from(s, i)) == 0,
    decreases s.len() - i,
{
    if ws_len(s, i) > 0 {
        lemma_trim_start_bounds(s, i + ws_len(s, i));
    }
}

pub proof fn lemma_trim_end_bounds(s: Seq<u8>, start: int, end: int)
    requires
        0 <= start <= end <= s.len(),
    ensures
        start <= trim_end_from(s, start, end) <= end,
    decreases end - start,
{
    if start < end && ws_suffix_len(s, end) > 0 && end - ws_suffix_len(s, end) >= start {
        lemma_trim_end_bounds(s, start, end - ws_suffix_len(s, end));
    }
}

/// The tokens of `str::split_whitespace`, from position `i` on.
pub open spec fn tokens_from(s: Seq<u8>, i: int) -> Seq<Seq<u8>>
    decreases s.len() - i,
{
    if i < 0 || i > s.len() {
        seq![]
    } else {
        let j = trim_start_from(s, i);
        if j >= s.len() {
            seq![]
        } else {
            let e = token_end(s, j);
            proof {
                lemma_trim_start_bounds(s, i);
                lemma_token_end_bounds(s, j);
            }
            seq![s.subrange(j, e)] + tokens_from(s, e)
        }
    }
}

/// `str::split_whitespace`.
pub open spec fn tokens(s: Seq<u8>) -> Seq<Seq<u8>> {
    tokens_from(s, 0)
}

/// `u8::to_ascii_lowercase`.
pub open spec fn ascii_lower(b: u8) -> u8 {
    if 0x41 <= b <= 0x5a {
        (b + 0x20) as u8
    } else {
        b
    }
}

/// `eq_ignore_ascii_case` on bytes.
pub open spec fn eq_ignore_case(a: Seq<u8>, b: Seq<u8>) -> bool {
    a.len() == b.len() && forall|i: int| 0 <= i < a.len() ==> ascii_lower(#[trigger] a[i]) == ascii_lower(b[i])
}

/// The characters of an ASCII byte sequence.
pub open spec fn ascii_text(b: Seq<u8>) -> Seq<char> {
    b.map_values(|x: u8| x as char)
}

pub open spec fn all_ascii(b: Seq<u8>) -> bool {
    forall|i: int| 0 <= i < b.len() ==> #[trigger] b[i] < 0x80
}

pub proof fn lemma_ascii_utf8(b: Seq<u8>)
    requires
        all_ascii(b),
    ensures
        valid_utf8(b),
        decode_utf8(b) == ascii_text(b),
        encode_utf8(ascii_text(b)) == b,
{
    let c = ascii_text(b);
    assert(is_ascii_chars(c));
    is_ascii_chars_encode_utf8(c);
    assert(encode_utf8(c) =~= b);
}


/// The first position at or after `i` that holds `b`, or the length when none does.
pub open spec fn find_byte(s: Seq<u8>, b: u8, i: int) -> int
    decreases s.len() - i,
{
    if i < 0 || i >= s.len() {
        s.len() as int
    } else if s[i] == b {
        i
    } else {
        find_byte(s, b, i + 1)
    }
}

pub proof fn lemma_find_byte(s: Seq<u8>, b: u8, i: int)
    requires
        0 <= i <= s.len(),
    ensures
        i <= find_byte(s, b, i) <= s.len(),
        find_byte(s, b, i) < s.len() ==> s[find_byte(s, b, i)] == b,
        forall|k: int| i <= k < find_byte(s, b, i) ==> #[trigger] s[k] != b,
    decreases s.len() - i,
{
    if i < s.len() && s[i] != b {
        lemma_find_byte(s, b, i + 1);
    }
}

/// The first `b` at or after `i` stands at `n` when the bytes from `i` up to
/// `n` are all different from `b` and `n` holds `b` or is the end.
pub proof fn lemma_find_byte_at(s: Seq<u8>, b: u8, i: int, n: int)
    requires
        0 <= i <= n <= s.len(),
        forall|k: int| i <= k < n ==> #[trigger] s[k] != b,
        n == s.len() || s[n] == b,
    ensures
        find_byte(s, b, i) == n,
    decreases n - i,
{
    if i < n {
        lemma_find_byte_at(s, b, i + 1, n);
    }
}

/// The position of the first `b` at or after `i`, or the length when there is none.
pub fn find(s: &[u8], b: u8, i: usize) -> (r: usize)
    requires
        i <= s@.len(),
    ensures
        r == find_byte(s@, b, i as int),
{
    let mut k = i;
    while k < s.len() && s[k] != b
        invariant
            i <= k <= s@.len(),
            find_byte(s@, b, i as int) == find_byte(s@, b, k as int),
        decreases s@.len() - k,
    {
        k = k + 1;
    }
    k
}

/// Length of the whitespace character that starts at `i`, 0 when none does.
pub fn whitespace_len(s: &[u8], i: usize) -> (r: usize)
    ensures
        r == ws_len(s@, i as int),
{
    if i >= s.len() {
        0
    } else if (0x09 <= s[i] && s[i] <= 0x0d) || s[i] == 0x20 {
        1
    } else if s.len() - i > 1 && s[i] == 0xc2 && (s[i + 1] == 0x85 || s[i + 1] == 0xa0) {
        2
    } else if s.len() - i > 2 && ((s[i] == 0xe1 && s[i + 1] == 0x9a && s[i + 2] == 0x80) || (s[i]
        == 0xe2 && s[i + 1] == 0x80 && ((0x80 <= s[i + 2] && s[i + 2] <= 0x8a) || s[i + 2] == 0xa8
        || s[i + 2] == 0xa9 || s[i + 2] == 0xaf)) || (s[i] == 0xe2 && s[i + 1] == 0x81 && s[i + 2]
        == 0x9f) || (s[i] == 0xe3 && s[i + 1] == 0x80 && s[i + 2] == 0x80)) {
        3
    } else {
        0
    }
}

/// Length of the whitespace character that ends right before `end`, 0 when none does.
pub fn whitespace_suffix_len(s: &[u8], end: usize) -> (r: usize)
    requires
        end <= s@.len(),
    ensures
        r == ws_suffix_len(s@, end as int),
{
    if end >= 1 && whitespace_len(s, end - 1) == 1 {
        1
    } else if end >= 2 && whitespace_len(s, end - 2) == 2 {
        2
    } else if end >= 3 && whitespace_len(s, end - 3) == 3 {
        3
    } else {
        0
    }
}

/// The position after the whitespace characters that start at `i`.
pub fn skip_ws(s: &[u8], i: usize) -> (r: usize)
    requires
        i <= s@.len(),
    ensures
        r == trim_start_from(s@, i as int),
        i <= r <= s@.len(),
{
    let mut k = i;
    proof {
        lemma_trim_start_bounds(s@, i as int);
    }
    loop
        invariant
            i <= k <= s@.len(),
            trim_start_from(s@, i as int) == trim_start_from(s@, k as int),
        decreases s@.len() - k,
    {
        let w = whitespace_len(s, k);
        if w == 0 {
            return k;
        }
        let n = s.len();
        assert(k + w <= n);
        k = k + w;
    }
}

/// `str::trim` on bytes: the start and end of `s` without surrounding whitespace.
pub fn trim(s: &[u8]) -> (r: (usize, usize))
    ensures
        r.0 == trim_start_from(s@, 0),
        r.1 == trim_end_from(s@, r.0 as int, s@.len() as int),
        r.0 <= r.1 <= s@.len(),
        s@.subrange(r.0 as int, r.1 as int) == trimmed(s@),
{
    let a = skip_ws(s, 0);
    let mut e = s.len();
    proof {
        lemma_trim_end_bounds(s@, a as int, s@.len() as int);
    }
    loop
        invariant
            a <= e <= s@.len(),
            a == trim_start_from(s@, 0),
            trim_end_from(s@, a as int, s@.len() as int) == trim_end_from(s@, a as int, e as int),
        decreases e - a,
    {
        if a >= e {
            return (a, e);
        }
        let w = whitespace_suffix_len(s, e);
        if w == 0 || e - w < a {
            return (a, e);
        }
        e = e - w;
    }
}


/// Whether two byte strings are equal.
pub fn bytes_eq(a: &[u8], b: &[u8]) -> (r: bool)
    ensures
        r == (a@ == b@),
{
    if a.len() != b.len() {
        return false;
    }
    let mut i: usize = 0;
    while i < a.len()
        invariant
            i <= a@.len(),
            a@.len() == b@.len(),
            forall|k: int| 0 <= k < i ==> a@[k] == b@[k],
        decreases a@.len() - i,
    {
        if a[i] != b[i] {
            return false;
        }
        i = i + 1;
    }
    assert(a@ =~= b@);
    true
}

/// `eq_ignore_ascii_case`.
pub fn eq_ignore_ascii_case(a: &[u8], b: &[u8]) -> (r: bool)
    ensures
        r == eq_ignore_case(a@, b@),
{
    if a.len() != b.len() {
        return false;
    }
    let mut i: usize = 0;
    while i < a.len()
        invariant
            i <= a@.len(),
            a@.len() == b@.len(),
            forall|k: int| 0 <= k < i ==> ascii_lower(#[trigger] a@[k]) == ascii_lower(b@[k]),
        decreases a@.len() - i,
    {
        let x = if 0x41 <= a[i] && a[i] <= 0x5a { a[i] + 0x20 } else { a[i] };
        let y = if 0x41 <= b[i] && b[i] <= 0x5a { b[i] + 0x20 } else { b[i] };
        if x != y {
            return false;
        }
        i = i + 1;
    }
    true
}

/// Whether every byte is an ASCII digit.
pub fn digits_only(s: &[u8]) -> (r: bool)
    ensures
        r == all_digits(s@),
{
    let mut i: usize = 0;
    while i < s.len()
        invariant
            i <= s@.len(),
            forall|k: int| 0 <= k < i ==> 0x30 <= #[trigger] s@[k] <= 0x39,
        decreases s@.len() - i,
    {
        if s[i] < 0x30 || s[i] > 0x39 {
            return false;
        }
        i = i + 1;
    }
    true
}

/// A position right after an ASCII byte is a character boundary of UTF-8 text.
pub proof fn lemma_boundary_after_ascii(b: Seq<u8>, i: int)
    requires
        valid_utf8(b),
        1 <= i <= b.len(),
        b[i - 1] < 0x80,
    ensures
        is_char_boundary(b, i),
    decreases b.len(),
{
    let l = length_of_first_scalar(b);
    if i - 1 < l {
        if l > 1 {
            assert(i - 1 == 0 || is_continuation_byte(b[i - 1]));
        }
        assert(i == l);
        let rest = pop_first_scalar(b);
        assert(is_char_boundary(rest, 0));
    } else {
        let rest = pop_first_scalar(b);
        assert(rest[i - l - 1] == b[i - 1]);
        lemma_boundary_after_ascii(rest, i - l);
    }
}

/// A position at an ASCII byte, right after one, or at either end is a character boundary.
pub open spec fn ascii_edge(b: Seq<u8>, i: int) -> bool {
    i == 0 || i == b.len() || (0 <= i < b.len() && b[i] < 0x80) || (1 <= i <= b.len() && b[i - 1] < 0x80)
}

pub proof fn lemma_ascii_edge_boundary(b: Seq<u8>, i: int)
    requires
        valid_utf8(b),
        0 <= i <= b.len(),
        ascii_edge(b, i),
    ensures
        is_char_boundary(b, i),
{
    is_char_boundary_start_end_of_seq(b);
    if 0 < i < b.len() && b[i] < 0x80 {
        is_char_boundary_iff_not_is_continuation_byte(b, i);
    } else if 1 <= i <= b.len() && b[i - 1] < 0x80 {
        lemma_boundary_after_ascii(b, i);
    }
}

/// The part of `s` between byte positions `a` and `b`, both of which stand at or next to an ASCII byte.
pub fn substr(s: &str, a: usize, b: usize) -> (r: &str)
    requires
        a <= b <= s.spec_bytes().len(),
        ascii_edge(s.spec_bytes(), a as int),
        ascii_edge(s.spec_bytes(), b as int),
    ensures
        r.spec_bytes() == s.spec_bytes().subrange(a as int, b as int),
{
    let ghost bytes = s.spec_bytes();
    proof {
        lemma_ascii_edge_boundary(bytes, a as int);
    }
    let (_, right) = s.split_at(a);
    let ghost rb = right.spec_bytes();
    assert(rb == bytes.subrange(a as int, bytes.len() as int));
    proof {
        let k = (b - a) as int;
        if k == rb.len() {
        } else if b < bytes.len() && bytes[b as int] < 0x80 {
            assert(rb[k] == bytes[b as int]);
        } else if 1 <= b && bytes[b - 1] < 0x80 && k >= 1 {
            assert(rb[k - 1] == bytes[b - 1]);
        } else if k == 0 {
        } else {
            assert(b == 0);
        }
        assert(ascii_edge(rb, k));
        lemma_ascii_edge_boundary(rb, k);
    }
    let (mid, _) = right.split_at(b - a);
    assert(mid.spec_bytes() =~= bytes.subrange(a as int, b as int));
    mid
}


/// End of the run of bytes from `i` on in which no whitespace character starts.
pub fn token_stop(s: &[u8], i: usize) -> (r: usize)
    requires
        i <= s@.len(),
    ensures
        r == token_end(s@, i as int),
        i <= r <= s@.len(),
{
    let mut k = i;
    proof {
        lemma_token_end_bounds(s@, i as int);
    }
    while k < s.len() && whitespace_len(s, k) == 0
        invariant
            i <= k <= s@.len(),
            token_end(s@, i as int) == token_end(s@, k as int),
        decreases s@.len() - k,
    {
        k = k + 1;
    }
    k
}

/// The next `split_whitespace` token from `i` on: its start and end; both
/// are the length when there is none.
pub fn next_token(s: &[u8], i: usize) -> (r: (usize, usize))
    requires
        i <= s@.len(),
    ensures
        r.0 == trim_start_from(s@, i as int),
        r.0 < s@.len() ==> r.1 == token_end(s@, r.0 as int) && r.1 > r.0,
        r.0 >= s@.len() ==> r.1 == r.0,
        i <= r.0 <= r.1 <= s@.len(),
{
    let j = skip_ws(s, i);
    proof {
        lemma_trim_start_bounds(s@, i as int);
    }
    if j >= s.len() {
        (j, j)
    } else {
        proof {
            lemma_token_end_bounds(s@, j as int);
        }
        (j, token_stop(s, j))
    }
}

/// Whether every byte is an ASCII digit.
pub open spec fn all_digits(b: Seq<u8>) -> bool {
    forall|i: int| 0 <= i < b.len() ==> 0x30 <= #[trigger] b[i] <= 0x39
}

// ---------------------------------------------------------------------------
// Integers as Rust's `FromStr` and `from_str_radix` read them.

/// Why an integer did not parse (`core::num::IntErrorKind`).
#[derive(PartialEq, Eq, Debug, Clone, Copy, Structural)]
pub enum IntError {
    /// The text was empty.
    Empty,
    /// A byte is not a digit of the radix, or a sign stands alone.
    InvalidDigit,
    /// The value exceeds the largest value of the target type.
    PosOverflow,
    /// The value is below the smallest value of the target type.
    NegOverflow,
}

/// Value of `b` as a digit in radix 10 or 16 (`char::to_digit`).
pub open spec fn digit_value(b: u8, radix: nat) -> Option<nat> {
    if 0x30 <= b <= 0x39 && (b - 0x30) < radix {
        Some((b - 0x30) as nat)
    } else if radix == 16 && 0x61 <= b <= 0x66 {
        Some((b - 0x61 + 10) as nat)
    } else if radix == 16 && 0x41 <= b <= 0x46 {
        Some((b - 0x41 + 10) as nat)
    } else {
        None
    }
}

/// Reads digits left to right from `i` on, as the standard library does: a
/// byte that is no digit fails before the value is checked against `max`.
pub open spec fn digits_from(s: Seq<u8>, i: int, acc: nat, radix: nat, max: nat, overflow: IntError) -> Result<nat, IntError>
    decreases s.len() - i,
{
    if i < 0 || i >= s.len() {
        Ok(acc)
    } else {
        match digit_value(s[i], radix) {
            None => Err(IntError::InvalidDigit),
            Some(d) => if acc * radix + d > max {
                Err(overflow)
            } else {
                digits_from(s, i + 1, acc * radix + d, radix, max, overflow)
            },
        }
    }
}

/// An unsigned integer of at most `max` in the given radix, with an optional `+`.
pub open spec fn parse_unsigned_spec(s: Seq<u8>, radix: nat, max: nat) -> Result<nat, IntError> {
    if s.len() == 0 {
        Err(IntError::Empty)
    } else if s[0] == 0x2b {
        if s.len() == 1 {
            Err(IntError::InvalidDigit)
        } else {
            digits_from(s, 1, 0, radix, max, IntError::PosOverflow)
        }
    } else {
        digits_from(s, 0, 0, radix, max, IntError::PosOverflow)
    }
}

/// `i64::from_str`.
pub open spec fn parse_i64_spec(s: Seq<u8>) -> Result<int, IntError> {
    if s.len() == 0 {
        Err(IntError::Empty)
    } else if (s[0] == 0x2b || s[0] == 0x2d) && s.len() == 1 {
        Err(IntError::InvalidDigit)
    } else if s[0] == 0x2d {
        match digits_from(s, 1, 0, 10, 0x8000_0000_0000_0000, IntError::NegOverflow) {
            Ok(v) => Ok(-v),
            Err(e) => Err(e),
        }
    } else if s[0] == 0x2b {
        match digits_from(s, 1, 0, 10, 0x7fff_ffff_ffff_ffff, IntError::PosOverflow) {
            Ok(v) => Ok(v as int),
            Err(e) => Err(e),
        }
    } else {
        match digits_from(s, 0, 0, 10, 0x7fff_ffff_ffff_ffff, IntError::PosOverflow) {
            Ok(v) => Ok(v as int),
            Err(e) => Err(e),
        }
    }
}

pub proof fn lemma_digits_from_bound(s: Seq<u8>, i: int, acc: nat, radix: nat, max: nat, overflow: IntError)
    requires
        acc <= max,
    ensures
        digits_from(s, i, acc, radix, max, overflow) matches Ok(v) ==> v <= max,
    decreases s.len() - i,
{
    if 0 <= i < s.len() {
        if let Some(d) = digit_value(s[i], radix) {
            if acc * radix + d <= max {
                lemma_digits_from_bound(s, i + 1, acc * radix + d, radix, max, overflow);
            }
        }
    }
}

fn digit_of(b: u8, radix: u64) -> (r: Option<u64>)
    requires
        radix == 10 || radix == 16,
    ensures
        match digit_value(b, radix as nat) {
            Some(d) => r == Some(d as u64),
            None => r is None,
        },
{
    if 0x30 <= b && b <= 0x39 {
        Some((b - 0x30) as u64)
    } else if radix == 16 && 0x61 <= b && b <= 0x66 {
        Some((b - 0x61 + 10) as u64)
    } else if radix == 16 && 0x41 <= b && b <= 0x46 {
        Some((b - 0x41 + 10) as u64)
    } else {
        None
    }
}

/// Reads the digits of `s` from `start` on into a value of at most `max`.
fn read_digits(s: &[u8], start: usize, radix: u64, max: u64, overflow: IntError) -> (r: Result<u64, IntError>)
    requires
        radix == 10 || radix == 16,
        start <= s@.len(),
    ensures
        match digits_from(s@, start as int, 0, radix as nat, max as nat, overflow) {
            Ok(v) => r == Ok::<u64, IntError>(v as u64),
            Err(e) => r == Err::<u64, IntError>(e),
        },
{
    let mut i = start;
    let mut acc: u64 = 0;
    while i < s.len()
        invariant
            start <= i <= s@.len(),
            radix == 10 || radix == 16,
            acc <= max,
            digits_from(s@, start as int, 0, radix as nat, max as nat, overflow)
                == digits_from(s@, i as int, acc as nat, radix as nat, max as nat, overflow),
        decreases s@.len() - i,
    {
        match digit_of(s[i], radix) {
            None => {
                return Err(IntError::InvalidDigit);
            },
            Some(d) => {
                assert((acc as u128) * (radix as u128) <= 0xffff_ffff_ffff_ffffu128 * 16) by (nonlinear_arith)
                    requires acc <= 0xffff_ffff_ffff_ffffu64, radix <= 16;
                let next: u128 = (acc as u128) * (radix as u128) + (d as u128);
                if next > max as u128 {
                    return Err(overflow);
                }
                acc = next as u64;
                i = i + 1;
            },
        }
    }
    Ok(acc)
}

/// An unsigned integer of at most `max` in radix 10 or 16, as `FromStr` or
/// `from_str_radix` reads it for an unsigned type whose largest value is `max`.
pub fn parse_unsigned(s: &[u8], radix: u64, max: u64) -> (r: Result<u64, IntError>)
    requires
        radix == 10 || radix == 16,
    ensures
        match parse_unsigned_spec(s@, radix as nat, max as nat) {
            Ok(v) => r == Ok::<u64, IntError>(v as u64),
            Err(e) => r == Err::<u64, IntError>(e),
        },
        r matches Ok(v) ==> v <= max,
        parse_unsigned_spec(s@, radix as nat, max as nat) matches Ok(v) ==> v <= max,
{
    proof {
        lemma_digits_from_bound(s@, 0, 0, radix as nat, max as nat, IntError::PosOverflow);
        lemma_digits_from_bound(s@, 1, 0, radix as nat, max as nat, IntError::PosOverflow);
    }
    if s.len() == 0 {
        Err(IntError::Empty)
    } else if s[0] == 0x2b {
        if s.len() == 1 {
            Err(IntError::InvalidDigit)
        } else {
            read_digits(s, 1, radix, max, IntError::PosOverflow)
        }
    } else {
        read_digits(s, 0, radix, max, IntError::PosOverflow)
    }
}

/// `i64::from_str`.
pub fn parse_i64(s: &[u8]) -> (r: Result<i64, IntError>)
    ensures
        match parse_i64_spec(s@) {
            Ok(v) => r == Ok::<i64, IntError>(v as i64),
            Err(e) => r == Err::<i64, IntError>(e),
        },
        r matches Ok(v) ==> parse_i64_spec(s@) == Ok::<int, IntError>(v as int),
{
    proof {
        lemma_digits_from_bound(s@, 0, 0, 10, 0x7fff_ffff_ffff_ffff, IntError::PosOverflow);
        lemma_digits_from_bound(s@, 1, 0, 10, 0x7fff_ffff_ffff_ffff, IntError::PosOverflow);
        lemma_digits_from_bound(s@, 1, 0, 10, 0x8000_0000_0000_0000, IntError::NegOverflow);
    }
    if s.len() == 0 {
        Err(IntError::Empty)
    } else if (s[0] == 0x2b || s[0] == 0x2d) && s.len() == 1 {
        Err(IntError::InvalidDigit)
    } else if s[0] == 0x2d {
        match read_digits(s, 1, 10, 0x8000_0000_0000_0000, IntError::NegOverflow) {
            Ok(v) => {
                if v == 0x8000_0000_0000_0000 {
                    Ok(i64::MIN)
                } else {
                    Ok(-(v as i64))
                }
            },
            Err(e) => Err(e),
        }
    } else if s[0] == 0x2b {
        match read_digits(s, 1, 10, 0x7fff_ffff_ffff_ffff, IntError::PosOverflow) {
            Ok(v) => Ok(v as i64),
            Err(e) => Err(e),
        }
    } else {
        match read_digits(s, 0, 10, 0x7fff_ffff_ffff_ffff, IntError::PosOverflow) {
            Ok(v) => Ok(v as i64),
            Err(e) => Err(e),
        }
    }
}

// ---------------------------------------------------------------------------
// Formatting.

/// The decimal digits of `n` (`Display` of an unsigned integer).
pub open spec fn dec(n: nat) -> Seq<u8>
    decreases n,
{
    if n < 10 {
        seq![(0x30 + n) as u8]
    } else {
        dec(n / 10).push((0x30 + n % 10) as u8)
    }
}

pub proof fn lemma_dec_ascii(n: nat)
    ensures
        all_ascii(dec(n)),
        dec(n).len() >= 1,
    decreases n,
{
    if n >= 10 {
        lemma_dec_ascii(n / 10);
    }
}

/// Appends the decimal digits of `n`.
pub fn push_decimal(out: &mut Vec<u8>, n: u64)
    ensures
        final(out)@ == old(out)@ + dec(n as nat),
    decreases n,
{
    if n >= 10 {
        push_decimal(out, n / 10);
    }
    out.push(0x30 + (n % 10) as u8);
    proof {
        assert(final(out)@ =~= old(out)@ + dec(n as nat)) by {
            if n >= 10 {
                assert(dec(n as nat) == dec((n / 10) as nat).push((0x30 + n % 10) as u8));
            }
        }
    }
}

/// Appends `s`.
pub fn push_bytes(out: &mut Vec<u8>, s: &[u8])
    ensures
        final(out)@ == old(out)@ + s@,
{
    let mut i: usize = 0;
    while i < s.len()
        invariant
            i <= s@.len(),
            out@ == old(out)@ + s@.subrange(0, i as int),
        decreases s@.len() - i,
    {
        out.push(s[i]);
        i = i + 1;
        assert(out@ =~= old(out)@ + s@.subrange(0, i as int));
    }
    assert(s@.subrange(0, s@.len() as int) =~= s@);
}

/// `std::str::from_utf8`: the string slice of `bytes` when they are well-formed
/// UTF-8, and nothing otherwise. Claimed: `Some` exactly when the bytes are
/// valid UTF-8 (no overlong forms, no surrogates, nothing above U+10FFFF), and
/// then the characters are those the bytes encode.
#[verifier::external_body]
pub(crate) fn utf8_str(bytes: &[u8]) -> (r: Option<&str>)
    ensures
        r is Some <==> valid_utf8(bytes@),
        r matches Some(s) ==> s@ == decode_utf8(bytes@),
{
    std::str::from_utf8(bytes).ok()
}

/// The string of a sequence of ASCII bytes.
pub fn ascii_string(bytes: &[u8]) -> (s: String)
    requires
        all_ascii(bytes@),
    ensures
        s@ == ascii_text(bytes@),
{
    proof {
        lemma_ascii_utf8(bytes@);
    }
    let r = utf8_str(bytes);
    match r {
        Some(t) => t.to_owned(),
        None => {
            proof {
                assert(false);
            }
            String::new()
        },
    }
}


proof fn lemma_encode_utf8_concat(a: Seq<char>, b: Seq<char>)
    ensures
        encode_utf8(a + b) == encode_utf8(a) + encode_utf8(b),
    decreases a.len(),
{
    if a.len() == 0 {
        assert(a + b =~= b);
        assert(encode_utf8(a) + encode_utf8(b) =~= encode_utf8(b));
    } else {
        lemma_encode_utf8_concat(a.drop_first(), b);
        assert((a + b).drop_first() =~= a.drop_first() + b);
        assert((a + b)[0] == a[0]);
        assert(encode_scalar(a[0] as u32) + (encode_utf8(a.drop_first()) + encode_utf8(b)) =~= (encode_scalar(
            a[0] as u32,
        ) + encode_utf8(a.drop_first())) + encode_utf8(b));
    }
}

/// The text `a` followed by the text `b`.
pub fn concat_str(a: &str, b: &str) -> (r: String)
    ensures
        r@ == a@ + b@,
{
    let mut bytes: Vec<u8> = Vec::new();
    push_bytes(&mut bytes, a.as_bytes());
    push_bytes(&mut bytes, b.as_bytes());
    proof {
        lemma_encode_utf8_concat(a@, b@);
        assert(bytes@ == encode_utf8(a@ + b@));
    }
    match utf8_str(bytes.as_slice()) {
        Some(s) => s.to_owned(),
        None => {
            proof {
                assert(false);
            }
            String::new()
        },
    }
}

} // verus!
