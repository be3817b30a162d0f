//! Scanning the top-level fields of the JSON object that iperf3 clients send
//! as their test parameters. Values are kept as raw text; nested objects,
//! arrays and strings are skipped whole, so text inside them never counts as
//! a field.
use vstd::prelude::*;
use vstd::string::StringSliceAdditionalSpecFns;
use crate::text::{ascii_lower, trimmed, trim_start_from, trim_end_from, ws_len, ws_suffix_len, ascii_edge, bytes_eq, eq_ignore_ascii_case, eq_ignore_case, find, find_byte, lemma_find_byte, substr, all_digits, digits_only};

verus! {

/// The JSON text is not an object of the accepted form.
#[derive(PartialEq, Eq, Debug, Clone, Copy, Structural)]
pub struct InvalidJson;

/// The error for malformed parameter JSON.
pub fn invalid_json() -> (r: InvalidJson)
    ensures
        r == InvalidJson,
{
    InvalidJson
}

/// JSON (and `u8::is_ascii_whitespace`) whitespace.
pub open spec fn is_json_ws(b: u8) -> bool {
    b == 0x20 || b == 0x09 || b == 0x0a || b == 0x0c || b == 0x0d
}

/// The position after the ASCII whitespace that starts at `i`.
pub open spec fn ws_end(s: Seq<u8>, i: int) -> int
    decreases s.len() - i,
{
    if 0 <= i < s.len() && is_json_ws(s[i]) {
        ws_end(s, i + 1)
    } else {
        i
    }
}

pub proof fn lemma_ws_end(s: Seq<u8>, i: int)
    requires
        0 <= i,
    ensures
        i <= ws_end(s, i),
        i <= s.len() ==> ws_end(s, i) <= s.len(),
        ws_end(s, i) < s.len() ==> !is_json_ws(s[ws_end(s, i)]),
        ws_end(s, i) > i ==> ws_end(s, i) <= s.len() && is_json_ws(s[ws_end(s, i) - 1]),
    decreases s.len() - i,
{
    if 0 <= i < s.len() && is_json_ws(s[i]) {
        lemma_ws_end(s, i + 1);
    }
}

/// Skips ASCII whitespace from `position` on.
pub fn skip_whitespace(bytes: &[u8], position: usize) -> (r: usize)
    ensures
        r == ws_end(bytes@, position as int),
{
    let mut p = position;
    while p < bytes.len() && (bytes[p] == 0x20 || bytes[p] == 0x09 || bytes[p] == 0x0a || bytes[p] == 0x0c
        || bytes[p] == 0x0d)
        invariant
            position <= p,
            ws_end(bytes@, position as int) == ws_end(bytes@, p as int),
        decreases bytes@.len() - p,
    {
        p = p + 1;
    }
    p
}

/// The position of the quote that closes a string whose contents start at
/// `i`: a backslash escapes the byte after it, and control bytes are refused.
pub open spec fn string_close(s: Seq<u8>, i: int) -> Option<int>
    decreases s.len() - i,
{
    if i < 0 || i >= s.len() {
        None
    } else if s[i] == 0x22 {
        Some(i)
    } else if s[i] == 0x5c {
        if i + 1 >= s.len() {
            None
        } else {
            string_close(s, i + 2)
        }
    } else if s[i] < 0x20 {
        None
    } else {
        string_close(s, i + 1)
    }
}

pub proof fn lemma_string_close(s: Seq<u8>, i: int)
    requires
        0 <= i,
    ensures
        string_close(s, i) matches Some(c) ==> i <= c < s.len() && s[c] == 0x22,
    decreases s.len() - i,
{
    if 0 <= i < s.len() && s[i] != 0x22 {
        if s[i] == 0x5c {
            if i + 1 < s.len() {
                lemma_string_close(s, i + 2);
            }
        } else if s[i] >= 0x20 {
            lemma_string_close(s, i + 1);
        }
    }
}

/// The string at `p`: start and end of its contents and the position after it.
pub open spec fn string_at(s: Seq<u8>, p: int) -> Option<(int, int, int)> {
    if 0 <= p < s.len() && s[p] == 0x22 {
        match string_close(s, p + 1) {
            Some(c) => Some((p + 1, c, c + 1)),
            None => None,
        }
    } else {
        None
    }
}

/// Reads the string that starts at `position`: the start and end of its
/// contents, and the position after its closing quote.
pub fn parse_string(bytes: &[u8], position: usize) -> (r: Result<(usize, usize, usize), InvalidJson>)
    ensures
        match string_at(bytes@, position as int) {
            Some((a, b, c)) => r matches Ok(t) && t.0 == a && t.1 == b && t.2 == c,
            None => r is Err,
        },
        r matches Ok((a, b, c)) ==> position < a <= b < c <= bytes@.len(),
{
    if position >= bytes.len() || bytes[position] != 0x22 {
        return Err(invalid_json());
    }
    let start = position + 1;
    let mut cursor = start;
    proof {
        lemma_string_close(bytes@, start as int);
    }
    while cursor < bytes.len()
        invariant
            start <= cursor,
            start == position + 1,
            position < bytes@.len(),
            bytes@[position as int] == 0x22,
            string_close(bytes@, start as int) == string_close(bytes@, cursor as int),
            string_close(bytes@, start as int) matches Some(c) ==> start <= c < bytes@.len(),
        decreases bytes@.len() - cursor,
    {
        let byte = bytes[cursor];
        if byte == 0x22 {
            return Ok((start, cursor, cursor + 1));
        } else if byte == 0x5c {
            if cursor + 1 >= bytes.len() {
                return Err(invalid_json());
            }
            cursor = cursor + 2;
        } else if byte < 0x20 {
            return Err(invalid_json());
        } else {
            cursor = cursor + 1;
        }
    }
    Err(invalid_json())
}

/// Whether `b` is an ASCII digit.
pub open spec fn is_digit(b: u8) -> bool {
    0x30 <= b <= 0x39
}

/// Whether `t` is a decimal number as `f64::from_str` reads one, without
/// sign: digits with an optional `.` and fraction digits, at least one digit
/// in all, then optionally `e` or `E`, an optional sign and digits.
pub open spec fn is_decimal_spec(t: Seq<u8>) -> bool {
    let e = if find_byte(t, 0x65, 0) < find_byte(t, 0x45, 0) { find_byte(t, 0x65, 0) } else { find_byte(t, 0x45, 0) };
    let m = t.subrange(0, e);
    let d = find_byte(m, 0x2e, 0);
    let int_part = m.subrange(0, d);
    let frac = if d < m.len() { m.subrange(d + 1, m.len() as int) } else { seq![] };
    let exp = if e < t.len() { t.subrange(e + 1, t.len() as int) } else { seq![] };
    let exp_digits = if exp.len() > 0 && (exp[0] == 0x2b || exp[0] == 0x2d) { exp.subrange(1, exp.len() as int) } else { exp };
    &&& all_digits(int_part)
    &&& all_digits(frac)
    &&& int_part.len() + frac.len() > 0
    &&& (e < t.len() ==> exp_digits.len() > 0 && all_digits(exp_digits))
}

/// Whether `t` is text that `f64::from_str` accepts: an optional sign, then
/// `inf`, `infinity` or `nan` in any case, or a decimal number.
pub open spec fn is_float_spec(t: Seq<u8>) -> bool {
    let b = if t.len() > 0 && (t[0] == 0x2b || t[0] == 0x2d) { t.subrange(1, t.len() as int) } else { t };
    ||| eq_ignore_case(b, "inf".spec_bytes())
    ||| eq_ignore_case(b, "infinity".spec_bytes())
    ||| eq_ignore_case(b, "nan".spec_bytes())
    ||| is_decimal_spec(b)
}

/// Whether `t` is a decimal number as [`is_decimal_spec`] states.
fn is_decimal(t: &[u8]) -> (r: bool)
    ensures
        r == is_decimal_spec(t@),
{
    let e1 = find(t, 0x65, 0);
    let e2 = find(t, 0x45, 0);
    proof {
        lemma_find_byte(t@, 0x65, 0);
        lemma_find_byte(t@, 0x45, 0);
    }
    let e = if e1 < e2 { e1 } else { e2 };
    let m = &t[0..e];
    let d = find(m, 0x2e, 0);
    proof {
        lemma_find_byte(m@, 0x2e, 0);
    }
    let int_part = &m[0..d];
    let frac: &[u8] = if d < m.len() { &m[d + 1..m.len()] } else { &m[0..0] };
    assert(d < m@.len() ==> frac@ == m@.subrange(d + 1, m@.len() as int));
    assert(d >= m@.len() ==> frac@ =~= Seq::<u8>::empty());
    let exp: &[u8] = if e < t.len() { &t[e + 1..t.len()] } else { &t[0..0] };
    assert(e >= t@.len() ==> exp@ =~= Seq::<u8>::empty());
    let exp_digits: &[u8] = if exp.len() > 0 && (exp[0] == 0x2b || exp[0] == 0x2d) { &exp[1..exp.len()] } else { exp };
    digits_only(int_part) && digits_only(frac) && int_part.len() + frac.len() > 0 && (e >= t.len() || (
    exp_digits.len() > 0 && digits_only(exp_digits)))
}

/// Whether `t` is text that `f64::from_str` accepts.
pub fn is_float(t: &[u8]) -> (r: bool)
    ensures
        r == is_float_spec(t@),
{
    let b: &[u8] = if t.len() > 0 && (t[0] == 0x2b || t[0] == 0x2d) { &t[1..t.len()] } else { t };
    eq_ignore_ascii_case(b, "inf".as_bytes()) || eq_ignore_ascii_case(b, "infinity".as_bytes())
        || eq_ignore_ascii_case(b, "nan".as_bytes()) || is_decimal(b)
}

/// Whether a bare value ends before `b`: ASCII whitespace, `,`, `}` or `]`.
pub open spec fn ends_bare(b: u8) -> bool {
    is_json_ws(b) || b == 0x2c || b == 0x7d || b == 0x5d
}

/// End of the bare value (number, `true`, ...) that starts at `i`.
pub open spec fn bare_end(s: Seq<u8>, i: int) -> int
    decreases s.len() - i,
{
    if i < 0 || i >= s.len() || ends_bare(s[i]) {
        i
    } else {
        bare_end(s, i + 1)
    }
}

pub proof fn lemma_bare_end(s: Seq<u8>, i: int)
    requires
        0 <= i <= s.len(),
    ensures
        i <= bare_end(s, i) <= s.len(),
        bare_end(s, i) < s.len() ==> ends_bare(s[bare_end(s, i)]),
    decreases s.len() - i,
{
    if i < s.len() && !ends_bare(s[i]) {
        lemma_bare_end(s, i + 1);
    }
}

/// Whether a bare value is accepted: `true`, `false`, `null` or a number.
pub open spec fn is_bare_value(t: Seq<u8>) -> bool {
    t == "true".spec_bytes() || t == "false".spec_bytes() || t == "null".spec_bytes() || is_float_spec(t)
}

/// Scans a nested object or array from `i`, `stack` holding the closing
/// brackets still expected, innermost last: the position after the bracket
/// that empties the stack.
pub open spec fn nested_end(s: Seq<u8>, i: int, stack: Seq<u8>) -> Option<int>
    decreases s.len() - i,
{
    if i < 0 || i >= s.len() {
        None
    } else if s[i] == 0x22 {
        match string_at(s, i) {
            None => None,
            Some((_, _, next)) => {
                proof {
                    lemma_string_close(s, i + 1);
                }
                nested_end(s, next, stack)
            },
        }
    } else if s[i] == 0x7b {
        nested_end(s, i + 1, stack.push(0x7du8))
    } else if s[i] == 0x5b {
        nested_end(s, i + 1, stack.push(0x5du8))
    } else if s[i] == 0x7d || s[i] == 0x5d {
        if stack.len() > 0 && stack.last() == s[i] {
            if stack.len() == 1 {
                Some(i + 1)
            } else {
                nested_end(s, i + 1, stack.drop_last())
            }
        } else {
            None
        }
    } else {
        nested_end(s, i + 1, stack)
    }
}

pub proof fn lemma_nested_end(s: Seq<u8>, i: int, stack: Seq<u8>)
    requires
        0 <= i,
    ensures
        nested_end(s, i, stack) matches Some(e) ==> i < e <= s.len() && (s[e - 1] == 0x7d || s[e - 1] == 0x5d),
    decreases s.len() - i,
{
    if 0 <= i < s.len() {
        if s[i] == 0x22 {
            lemma_string_close(s, i + 1);
            if let Some((_, _, next)) = string_at(s, i) {
                lemma_nested_end(s, next, stack);
            }
        } else if s[i] == 0x7b {
            lemma_nested_end(s, i + 1, stack.push(0x7du8));
        } else if s[i] == 0x5b {
            lemma_nested_end(s, i + 1, stack.push(0x5du8));
        } else if s[i] == 0x7d || s[i] == 0x5d {
            if stack.len() > 1 && stack.last() == s[i] {
                lemma_nested_end(s, i + 1, stack.drop_last());
            }
        } else {
            lemma_nested_end(s, i + 1, stack);
        }
    }
}

/// Skips the object or array at `position`: the position after its closing
/// bracket. Brackets must match, and strings inside are skipped whole.
pub fn skip_nested_value(bytes: &[u8], position: usize) -> (r: Result<usize, InvalidJson>)
    ensures
        match nested_end(bytes@, position as int, seq![]) {
            Some(e) => r == Ok::<usize, InvalidJson>(e as usize),
            None => r is Err,
        },
        r matches Ok(e) ==> position < e <= bytes@.len(),
{
    let mut expected: Vec<u8> = Vec::new();
    let mut cursor = position;
    proof {
        lemma_nested_end(bytes@, position as int, seq![]);
    }
    while cursor < bytes.len()
        invariant
            position <= cursor,
            nested_end(bytes@, position as int, seq![]) == nested_end(bytes@, cursor as int, expected@),
            nested_end(bytes@, position as int, seq![]) matches Some(e) ==> position < e <= bytes@.len(),
        decreases bytes@.len() - cursor,
    {
        let byte = bytes[cursor];
        let ghost old_stack = expected@;
        if byte == 0x22 {
            match parse_string(bytes, cursor) {
                Ok((_, _, next)) => {
                    cursor = next;
                },
                Err(e) => {
                    return Err(e);
                },
            }
        } else if byte == 0x7b {
            expected.push(0x7d);
            cursor = cursor + 1;
        } else if byte == 0x5b {
            expected.push(0x5d);
            cursor = cursor + 1;
        } else if byte == 0x7d || byte == 0x5d {
            let top = expected.pop();
            match top {
                Some(t) => {
                    if t != byte {
                        return Err(invalid_json());
                    }
                    assert(expected@ == old_stack.drop_last());
                    assert(old_stack.len() > 0 && old_stack.last() == byte);
                    cursor = cursor + 1;
                    if expected.len() == 0 {
                        return Ok(cursor);
                    }
                },
                None => {
                    return Err(invalid_json());
                },
            }
        } else {
            cursor = cursor + 1;
        }
    }
    Err(invalid_json())
}

/// The position after the value at `p`: a string, a nested object or array,
/// or a bare `true`, `false`, `null` or number.
pub open spec fn value_end(s: Seq<u8>, p: int) -> Option<int> {
    if p < 0 || p >= s.len() {
        None
    } else if s[p] == 0x22 {
        match string_at(s, p) {
            Some((_, _, next)) => Some(next),
            None => None,
        }
    } else if s[p] == 0x7b || s[p] == 0x5b {
        nested_end(s, p, seq![])
    } else {
        let e = bare_end(s, p);
        if is_bare_value(s.subrange(p, e)) {
            Some(e)
        } else {
            None
        }
    }
}

/// Skips the value at `position`: the position after it.
pub fn skip_json_value(bytes: &[u8], position: usize) -> (r: Result<usize, InvalidJson>)
    ensures
        match value_end(bytes@, position as int) {
            Some(e) => r == Ok::<usize, InvalidJson>(e as usize),
            None => r is Err,
        },
        r matches Ok(e) ==> position < e <= bytes@.len(),
{
    if position >= bytes.len() {
        return Err(invalid_json());
    }
    let b = bytes[position];
    if b == 0x22 {
        match parse_string(bytes, position) {
            Ok((_, _, next)) => Ok(next),
            Err(e) => Err(e),
        }
    } else if b == 0x7b || b == 0x5b {
        skip_nested_value(bytes, position)
    } else {
        let mut cursor = position;
        while cursor < bytes.len() && !(bytes[cursor] == 0x20 || bytes[cursor] == 0x09 || bytes[cursor]
            == 0x0a || bytes[cursor] == 0x0c || bytes[cursor] == 0x0d || bytes[cursor] == 0x2c
            || bytes[cursor] == 0x7d || bytes[cursor] == 0x5d)
            invariant
                position <= cursor <= bytes@.len(),
                bare_end(bytes@, position as int) == bare_end(bytes@, cursor as int),
            decreases bytes@.len() - cursor,
        {
            cursor = cursor + 1;
        }
        let token = &bytes[position..cursor];
        if bytes_eq(token, "true".as_bytes()) || bytes_eq(token, "false".as_bytes()) || bytes_eq(
            token,
            "null".as_bytes(),
        ) || is_float(token) {
            if cursor == position {
                assert(token@.len() == 0);
                proof {
                    reveal_strlit("true");
                    reveal_strlit("false");
                    reveal_strlit("null");
                    vstd::string::is_ascii_spec_bytes("true");
                    vstd::string::is_ascii_spec_bytes("false");
                    vstd::string::is_ascii_spec_bytes("null");
                    assert(!is_decimal_spec(token@));
                    reveal_strlit("inf");
                    reveal_strlit("infinity");
                    reveal_strlit("nan");
                    vstd::string::is_ascii_spec_bytes("inf");
                    vstd::string::is_ascii_spec_bytes("infinity");
                    vstd::string::is_ascii_spec_bytes("nan");
                }
            }
            Ok(cursor)
        } else {
            Err(invalid_json())
        }
    }
}


pub proof fn lemma_value_end(s: Seq<u8>, p: int)
    requires
        0 <= p,
    ensures
        value_end(s, p) matches Some(e) ==> p < e <= s.len() && (s[e - 1] < 0x80 || (e < s.len() && s[e] < 0x80) || e == s.len()),
{
    if 0 <= p < s.len() {
        if s[p] == 0x22 {
            lemma_string_close(s, p + 1);
        } else if s[p] == 0x7b || s[p] == 0x5b {
            lemma_nested_end(s, p, seq![]);
        } else {
            lemma_bare_end(s, p);
            let e = bare_end(s, p);
            if e == p {
                reveal_strlit("true");
                reveal_strlit("false");
                reveal_strlit("null");
                vstd::string::is_ascii_spec_bytes("true");
                vstd::string::is_ascii_spec_bytes("false");
                vstd::string::is_ascii_spec_bytes("null");
                reveal_strlit("inf");
                reveal_strlit("infinity");
                reveal_strlit("nan");
                vstd::string::is_ascii_spec_bytes("inf");
                vstd::string::is_ascii_spec_bytes("infinity");
                vstd::string::is_ascii_spec_bytes("nan");
                assert(s.subrange(p, e).len() == 0);
            }
        }
    }
}

/// Whether `b` is a visible ASCII byte: neither whitespace, nor a control
/// byte, nor part of a longer UTF-8 sequence.
pub open spec fn is_graphic(b: u8) -> bool {
    0x21 <= b <= 0x7e
}

/// Text that starts and ends with a visible ASCII byte is its own trim.
pub proof fn lemma_graphic_ends_trimmed(v: Seq<u8>)
    requires
        v.len() > 0,
        is_graphic(v[0]),
        is_graphic(v[v.len() - 1]),
    ensures
        trimmed(v) == v,
{
    let n = v.len() as int;
    assert(ws_len(v, 0) == 0);
    assert(trim_start_from(v, 0) == 0);
    assert(ws_len(v, n - 1) != 1);
    assert(ws_len(v, n - 2) != 2);
    assert(ws_len(v, n - 3) != 3);
    assert(ws_suffix_len(v, n) == 0);
    assert(trim_end_from(v, 0, n) == n);
    assert(v.subrange(0, n) =~= v);
}

proof fn lemma_ignore_case_graphic(a: Seq<u8>, b: Seq<u8>, i: int)
    requires
        eq_ignore_case(a, b),
        0 <= i < b.len(),
        is_graphic(b[i]),
    ensures
        is_graphic(a[i]),
{
    assert(ascii_lower(a[i]) == ascii_lower(b[i]));
}

/// A number `f64::from_str` accepts starts and ends with a visible ASCII byte.
proof fn lemma_float_graphic_ends(t: Seq<u8>)
    requires
        is_float_spec(t),
    ensures
        t.len() > 0,
        is_graphic(t[0]),
        is_graphic(t[t.len() - 1]),
{
    let signed = t.len() > 0 && (t[0] == 0x2b || t[0] == 0x2d);
    let b = if signed { t.subrange(1, t.len() as int) } else { t };
    reveal_strlit("inf");
    reveal_strlit("infinity");
    reveal_strlit("nan");
    vstd::string::is_ascii_spec_bytes("inf");
    vstd::string::is_ascii_spec_bytes("infinity");
    vstd::string::is_ascii_spec_bytes("nan");
    if eq_ignore_case(b, "inf".spec_bytes()) {
        lemma_ignore_case_graphic(b, "inf".spec_bytes(), 0);
        lemma_ignore_case_graphic(b, "inf".spec_bytes(), 2);
    } else if eq_ignore_case(b, "infinity".spec_bytes()) {
        lemma_ignore_case_graphic(b, "infinity".spec_bytes(), 0);
        lemma_ignore_case_graphic(b, "infinity".spec_bytes(), 7);
    } else if eq_ignore_case(b, "nan".spec_bytes()) {
        lemma_ignore_case_graphic(b, "nan".spec_bytes(), 0);
        lemma_ignore_case_graphic(b, "nan".spec_bytes(), 2);
    } else {
        assert(is_decimal_spec(b));
        lemma_find_byte(b, 0x65, 0);
        lemma_find_byte(b, 0x45, 0);
        let e = if find_byte(b, 0x65, 0) < find_byte(b, 0x45, 0) { find_byte(b, 0x65, 0) } else { find_byte(b, 0x45, 0) };
        let m = b.subrange(0, e);
        lemma_find_byte(m, 0x2e, 0);
        let d = find_byte(m, 0x2e, 0);
        let int_part = m.subrange(0, d);
        let frac = if d < m.len() { m.subrange(d + 1, m.len() as int) } else { seq![] };
        let exp = if e < b.len() { b.subrange(e + 1, b.len() as int) } else { seq![] };
        let exp_digits = if exp.len() > 0 && (exp[0] == 0x2b || exp[0] == 0x2d) { exp.subrange(1, exp.len() as int) } else { exp };
        assert(b.len() > 0);
        if int_part.len() > 0 {
            assert(int_part[0] == b[0]);
        } else {
            assert(m[0] == b[0]);
        }
        if e < b.len() {
            assert(exp_digits.len() > 0);
            assert(exp_digits[exp_digits.len() - 1] == b[b.len() - 1]);
        } else if d < m.len() {
            if frac.len() > 0 {
                assert(frac[frac.len() - 1] == b[b.len() - 1]);
            } else {
                assert(m[m.len() - 1] == b[b.len() - 1]);
            }
        } else {
            assert(int_part[int_part.len() - 1] == b[b.len() - 1]);
        }
    }
    if signed {
        assert(b[b.len() - 1] == t[t.len() - 1]);
    }
}

/// A value starts and ends with a visible ASCII byte.
pub proof fn lemma_value_graphic_ends(s: Seq<u8>, p: int)
    requires
        0 <= p,
        value_end(s, p) is Some,
    ensures
        is_graphic(s[p]),
        is_graphic(s[value_end(s, p).unwrap() - 1]),
{
    let e = value_end(s, p).unwrap();
    if s[p] == 0x22 {
        lemma_string_close(s, p + 1);
    } else if s[p] == 0x7b || s[p] == 0x5b {
        lemma_nested_end(s, p, seq![]);
    } else {
        let t = s.subrange(p, e);
        reveal_strlit("true");
        reveal_strlit("false");
        reveal_strlit("null");
        vstd::string::is_ascii_spec_bytes("true");
        vstd::string::is_ascii_spec_bytes("false");
        vstd::string::is_ascii_spec_bytes("null");
        if !(t == "true".spec_bytes() || t == "false".spec_bytes() || t == "null".spec_bytes()) {
            lemma_float_graphic_ends(t);
        }
        lemma_bare_end(s, p);
        assert(t[0] == s[p]);
        assert(t[t.len() - 1] == s[e - 1]);
    }
}

/// The fields of an object from `p` on, where `p` is just after its `{` or
/// after a `,`: for each, the start and end of the key's contents and of the
/// value. After the closing `}` only whitespace may follow.
pub open spec fn members_from(s: Seq<u8>, p: int) -> Option<Seq<(int, int, int, int)>>
    decreases s.len() - p,
{
    let p1 = ws_end(s, p);
    if p < 0 || p > s.len() {
        None
    } else if p1 < s.len() && s[p1] == 0x7d {
        if ws_end(s, p1 + 1) == s.len() {
            Some(seq![])
        } else {
            None
        }
    } else {
        match string_at(s, p1) {
            None => None,
            Some((ks, ke, next)) => {
                let p2 = ws_end(s, next);
                if !(p2 < s.len() && s[p2] == 0x3a) {
                    None
                } else {
                    let vs = ws_end(s, p2 + 1);
                    match value_end(s, vs) {
                        None => None,
                        Some(ve) => {
                            let p4 = ws_end(s, ve);
                            if p4 < s.len() && s[p4] == 0x2c {
                                let p5 = ws_end(s, p4 + 1);
                                proof {
                                    lemma_ws_end(s, p);
                                    lemma_string_close(s, p1 + 1);
                                    lemma_ws_end(s, next);
                                    lemma_ws_end(s, p2 + 1);
                                    lemma_value_end(s, vs);
                                    lemma_ws_end(s, ve);
                                    lemma_ws_end(s, p4 + 1);
                                }
                                if p5 < s.len() && s[p5] == 0x7d {
                                    None
                                } else {
                                    match members_from(s, p5) {
                                        Some(rest) => Some(seq![(ks, ke, vs, ve)] + rest),
                                        None => None,
                                    }
                                }
                            } else if p4 < s.len() && s[p4] == 0x7d {
                                if ws_end(s, p4 + 1) == s.len() {
                                    Some(seq![(ks, ke, vs, ve)])
                                } else {
                                    None
                                }
                            } else {
                                None
                            }
                        },
                    }
                }
            },
        }
    }
}

/// The fields of the object that `s` holds, or `None` when it holds none of
/// the accepted form.
pub open spec fn object_fields(s: Seq<u8>) -> Option<Seq<(int, int, int, int)>> {
    let p0 = ws_end(s, 0);
    if p0 < s.len() && s[p0] == 0x7b {
        members_from(s, p0 + 1)
    } else {
        None
    }
}

/// Whether `r` holds the keys and values of the fields `f` of `s`, in order.
pub open spec fn fields_match(s: Seq<u8>, r: Seq<(&str, &str)>, f: Seq<(int, int, int, int)>) -> bool {
    &&& r.len() == f.len()
    &&& forall|i: int| 0 <= i < r.len() ==> {
        &&& (#[trigger] r[i]).0.spec_bytes() == s.subrange(f[i].0, f[i].1)
        &&& r[i].1.spec_bytes() == s.subrange(f[i].2, f[i].3)
    }
}

/// Whether every value among the pairs `r` is its own trim.
pub open spec fn values_trimmed(r: Seq<(&str, &str)>) -> bool {
    forall|i: int| 0 <= i < r.len() ==> trimmed((#[trigger] r[i]).1.spec_bytes()) == r[i].1.spec_bytes()
}

/// Splits the JSON object `json` into its top-level fields: each key's raw
/// contents (between its quotes) and the raw text of its value, in order;
/// a value never has whitespace around it, so it is its own trim.
/// Refused: anything but one object, members without `:` or value, a
/// trailing comma, and text after the closing brace other than whitespace.
pub fn parse_object_fields(json: &str) -> (r: Result<Vec<(&str, &str)>, InvalidJson>)
    ensures
        match object_fields(json.spec_bytes()) {
            Some(f) => r matches Ok(v) && fields_match(json.spec_bytes(), v@, f),
            None => r is Err,
        },
        r matches Ok(v) ==> values_trimmed(v@),
{
    let bytes = json.as_bytes();
    let ghost s = bytes@;
    let mut position = skip_whitespace(bytes, 0);
    proof {
        lemma_ws_end(s, 0);
    }
    if position >= bytes.len() || bytes[position] != 0x7b {
        return Err(invalid_json());
    }
    position = position + 1;
    let mut fields: Vec<(&str, &str)> = Vec::new();
    let ghost mut acc: Seq<(int, int, int, int)> = seq![];
    loop
        invariant
            bytes@ == s,
            s == json.spec_bytes(),
            0 < position <= s.len(),
            fields_match(s, fields@, acc),
            values_trimmed(fields@),
            match object_fields(s) {
                Some(f) => members_from(s, position as int) matches Some(rest) && f == acc + rest,
                None => members_from(s, position as int) is None,
            },
        decreases s.len() - position,
    {
        let p1 = skip_whitespace(bytes, position);
        proof {
            lemma_ws_end(s, position as int);
        }
        if p1 < bytes.len() && bytes[p1] == 0x7d {
            let end = skip_whitespace(bytes, p1 + 1);
            if end != bytes.len() {
                return Err(invalid_json());
            }
            proof {
                assert(acc + seq![] =~= acc);
            }
            return Ok(fields);
        }
        let (ks, ke, next) = match parse_string(bytes, p1) {
            Ok(t) => t,
            Err(e) => {
                return Err(e);
            },
        };
        proof {
            lemma_string_close(s, p1 + 1);
        }
        let p2 = skip_whitespace(bytes, next);
        proof {
            lemma_ws_end(s, next as int);
        }
        if p2 >= bytes.len() || bytes[p2] != 0x3a {
            return Err(invalid_json());
        }
        let vs = skip_whitespace(bytes, p2 + 1);
        proof {
            lemma_ws_end(s, p2 + 1);
        }
        let ve = match skip_json_value(bytes, vs) {
            Ok(e) => e,
            Err(e) => {
                return Err(e);
            },
        };
        proof {
            lemma_value_end(s, vs as int);
        }
        let key = substr(json, ks, ke);
        let value = substr(json, vs, ve);
        let ghost field = (ks as int, ke as int, vs as int, ve as int);
        fields.push((key, value));
        proof {
            assert(fields_match(s, fields@, acc.push(field)));
            lemma_value_graphic_ends(s, vs as int);
            let v = s.subrange(vs as int, ve as int);
            assert(v[0] == s[vs as int]);
            assert(v[v.len() - 1] == s[ve - 1]);
            lemma_graphic_ends_trimmed(v);
            assert(values_trimmed(fields@));
        }
        let p4 = skip_whitespace(bytes, ve);
        proof {
            lemma_ws_end(s, ve as int);
        }
        if p4 < bytes.len() && bytes[p4] == 0x2c {
            let p5 = skip_whitespace(bytes, p4 + 1);
            proof {
                lemma_ws_end(s, p4 + 1);
            }
            if p5 < bytes.len() && bytes[p5] == 0x7d {
                return Err(invalid_json());
            }
            proof {
                if let Some(f) = object_fields(s) {
                    let rest = members_from(s, p5 as int).unwrap();
                    assert(f == acc.push(field) + rest) by {
                        assert(acc + (seq![field] + rest) =~= acc.push(field) + rest);
                    }
                }
                acc = acc.push(field);
            }
            position = p5;
        } else if p4 < bytes.len() && bytes[p4] == 0x7d {
            let end = skip_whitespace(bytes, p4 + 1);
            if end != bytes.len() {
                return Err(invalid_json());
            }
            proof {
                if let Some(f) = object_fields(s) {
                    assert(f =~= acc.push(field));
                }
            }
            return Ok(fields);
        } else {
            return Err(invalid_json());
        }
    }
}

} // verus!
