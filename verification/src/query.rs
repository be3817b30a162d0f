//! Query-string values of request targets.
use vstd::prelude::*;
use vstd::string::StringSliceAdditionalSpecFns;
use crate::limits::DEFAULT_DOWNLOAD;
use crate::text::{bytes_eq, find, find_byte, lemma_find_byte, parse_unsigned, parse_unsigned_spec, substr};

verus! {

/// The value of the first `name=value` pair named `key` among the
/// `&`-separated pairs from position `i` on: its start and end.
pub open spec fn pair_from(t: Seq<u8>, i: int, key: Seq<u8>) -> Option<(int, int)>
    decreases t.len() - i,
{
    if i < 0 || i > t.len() {
        None
    } else {
        let e = find_byte(t, 0x26, i);
        let eq = find_byte(t, 0x3d, i);
        if eq < e && t.subrange(i, eq) == key {
            Some((eq + 1, e))
        } else if e < t.len() {
            proof {
                lemma_find_byte(t, 0x26, i);
            }
            pair_from(t, e + 1, key)
        } else {
            None
        }
    }
}

/// Where the value of query parameter `key` stands in target `t`: the first
/// pair named `key` after the first `?`; pairs without `=` are skipped.
pub open spec fn query_range(t: Seq<u8>, key: Seq<u8>) -> Option<(int, int)> {
    let q = find_byte(t, 0x3f, 0);
    if q < t.len() {
        pair_from(t, q + 1, key)
    } else {
        None
    }
}

/// The value of query parameter `key` in target `t`.
pub open spec fn query_value_spec(t: Seq<u8>, key: Seq<u8>) -> Option<Seq<u8>> {
    match query_range(t, key) {
        Some((a, b)) => Some(t.subrange(a, b)),
        None => None,
    }
}

pub proof fn lemma_pair_from(t: Seq<u8>, i: int, key: Seq<u8>)
    requires
        0 <= i,
    ensures
        pair_from(t, i, key) matches Some((a, b)) ==> i < a <= b <= t.len() && t[a - 1] == 0x3d && (b == t.len()
            || t[b] == 0x26),
    decreases t.len() - i,
{
    if i <= t.len() {
        lemma_find_byte(t, 0x26, i);
        lemma_find_byte(t, 0x3d, i);
        let e = find_byte(t, 0x26, i);
        let eq = find_byte(t, 0x3d, i);
        if !(eq < e && t.subrange(i, eq) == key) && e < t.len() {
            lemma_pair_from(t, e + 1, key);
        }
    }
}

/// Where the value of query parameter `key` stands in the target bytes.
pub fn query_position(t: &[u8], key: &[u8]) -> (r: Option<(usize, usize)>)
    ensures
        match query_range(t@, key@) {
            Some((a, b)) => r matches Some(p) && p.0 == a && p.1 == b,
            None => r is None,
        },
        r matches Some((a, b)) ==> 0 < a <= b <= t@.len() && t@[a - 1] == 0x3d && (b == t@.len() || t@[b as int]
            == 0x26),
{
    let q = find(t, 0x3f, 0);
    proof {
        lemma_find_byte(t@, 0x3f, 0);
    }
    if q >= t.len() {
        return None;
    }
    let mut i = q + 1;
    proof {
        lemma_pair_from(t@, i as int, key@);
    }
    loop
        invariant
            0 < i <= t@.len(),
            query_range(t@, key@) == pair_from(t@, i as int, key@),
        decreases t@.len() - i,
    {
        let e = find(t, 0x26, i);
        let eq = find(t, 0x3d, i);
        proof {
            lemma_find_byte(t@, 0x26, i as int);
            lemma_find_byte(t@, 0x3d, i as int);
            lemma_pair_from(t@, i as int, key@);
        }
        if eq < e && bytes_eq(&t[i..eq], key) {
            return Some((eq + 1, e));
        }
        if e >= t.len() {
            return None;
        }
        i = e + 1;
    }
}

/// The value of query parameter `key` in `target`: the first `key=value`
/// pair after the first `?`, pairs being separated by `&`.
pub fn query_value<'a>(target: &'a str, key: &str) -> (r: Option<&'a str>)
    ensures
        match query_value_spec(target.spec_bytes(), key.spec_bytes()) {
            Some(v) => r matches Some(s) && s.spec_bytes() == v,
            None => r is None,
        },
{
    match query_position(target.as_bytes(), key.as_bytes()) {
        Some((a, b)) => Some(substr(target, a, b)),
        None => None,
    }
}

/// The download size a target asks for: its `size` query value read as a
/// `usize`, or 32 MiB when it names none or an unreadable one.
pub open spec fn query_size_spec(t: Seq<u8>) -> nat {
    match query_value_spec(t, "size".spec_bytes()) {
        Some(v) => match parse_unsigned_spec(v, 10, usize::MAX as nat) {
            Ok(n) => n,
            Err(_) => DEFAULT_DOWNLOAD as nat,
        },
        None => DEFAULT_DOWNLOAD as nat,
    }
}

/// The download size of the target bytes `t`.
pub fn query_size_of(t: &[u8]) -> (r: usize)
    ensures
        r == query_size_spec(t@),
{
    match query_position(t, "size".as_bytes()) {
        Some((a, b)) => match parse_unsigned(&t[a..b], 10, usize::MAX as u64) {
            Ok(n) => n as usize,
            Err(_) => DEFAULT_DOWNLOAD,
        },
        None => DEFAULT_DOWNLOAD,
    }
}

/// The download size `target` asks for: its `size` query value, or 32 MiB
/// when it names none or one that is no `usize`.
pub fn query_size(target: &str) -> (r: usize)
    ensures
        r == query_size_spec(target.spec_bytes()),
{
    query_size_of(target.as_bytes())
}

} // verus!
