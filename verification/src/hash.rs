//! Content fingerprints for cache-busting asset URLs.
use vstd::prelude::*;
use crate::text::{ascii_string, ascii_text, all_ascii};

verus! {

pub const FNV_OFFSET: u64 = 0xcbf29ce484222325;

pub const FNV_PRIME: u64 = 0x100000001b3;

/// The 64-bit FNV-1a hash of `s`: start from the offset basis, and for each
/// byte xor it in and multiply by the prime modulo 2^64.
pub open spec fn fnv1a(s: Seq<u8>) -> u64
    decreases s.len(),
{
    if s.len() == 0 {
        FNV_OFFSET
    } else {
        (((fnv1a(s.drop_last()) ^ (s.last() as u64)) as nat * FNV_PRIME as nat) % 0x1_0000_0000_0000_0000) as u64
    }
}

/// Lower-case hexadecimal digit of a value below 16.
pub open spec fn hex_digit(v: u64) -> u8 {
    if v < 10 {
        (0x30 + v) as u8
    } else {
        (0x61 + v - 10) as u8
    }
}

/// The 16 lower-case hexadecimal digits of `h`, most significant first (`{:016x}`).
pub open spec fn hex16(h: u64) -> Seq<u8> {
    Seq::new(16, |i: int| hex_digit((h >> ((60 - 4 * i) as u64)) & 0xf))
}

/// The fingerprint of `content`: its FNV-1a hash as 16 lower-case hex digits.
pub fn content_hash(content: &[u8]) -> (res: String)
    ensures
        res@ == ascii_text(hex16(fnv1a(content@))),
{
    let mut hash: u64 = FNV_OFFSET;
    let mut i: usize = 0;
    while i < content.len()
        invariant
            i <= content@.len(),
            hash == fnv1a(content@.subrange(0, i as int)),
        decreases content@.len() - i,
    {
        assert(content@.subrange(0, i + 1).drop_last() =~= content@.subrange(0, i as int));
        hash = (hash ^ (content[i] as u64)).wrapping_mul(FNV_PRIME);
        i = i + 1;
    }
    assert(content@.subrange(0, content@.len() as int) =~= content@);
    let mut digits: Vec<u8> = Vec::new();
    let mut k: usize = 0;
    while k < 16
        invariant
            k <= 16,
            digits@.len() == k,
            hash == fnv1a(content@),
            forall|j: int| 0 <= j < k ==> #[trigger] digits@[j] == hex16(hash)[j],
            forall|j: int| 0 <= j < k ==> #[trigger] digits@[j] < 0x80,
        decreases 16 - k,
    {
        let nibble = (hash >> ((60 - 4 * k) as u64)) & 0xf;
        assert(nibble < 16) by (bit_vector)
            requires nibble == (hash >> ((60 - 4 * k) as u64)) & 0xf;
        let d: u8 = if nibble < 10 {
            0x30 + nibble as u8
        } else {
            0x61 + (nibble - 10) as u8
        };
        digits.push(d);
        k = k + 1;
    }
    assert(digits@ =~= hex16(hash));
    assert(all_ascii(digits@));
    ascii_string(digits.as_slice())
}


pub proof fn lemma_hex16_ascii(h: u64)
    ensures
        all_ascii(hex16(h)),
{
    assert forall|i: int| 0 <= i < 16 implies #[trigger] hex16(h)[i] < 0x80 by {
        let sh: u64 = (60 - 4 * i) as u64;
        let v = (h >> sh) & 0xf;
        assert(v <= 15) by (bit_vector)
            requires v == (h >> sh) & 0xf;
    }
}

/// Whether `b` is a lower-case hexadecimal digit.
pub open spec fn is_hex_digit(b: u8) -> bool {
    (0x30 <= b <= 0x39) || (0x61 <= b <= 0x66)
}

pub proof fn lemma_hex16_digits(h: u64)
    ensures
        hex16(h).len() == 16,
        forall|i: int| 0 <= i < 16 ==> is_hex_digit(#[trigger] hex16(h)[i]),
{
    assert forall|i: int| 0 <= i < 16 implies is_hex_digit(#[trigger] hex16(h)[i]) by {
        let sh: u64 = (60 - 4 * i) as u64;
        let v = (h >> sh) & 0xf;
        assert(v <= 15) by (bit_vector)
            requires v == (h >> sh) & 0xf;
    }
}

/// The value the first `i` hex digits of `h` stand for.
pub open spec fn hex_prefix_value(h: u64, i: nat) -> nat
    decreases i,
{
    if i == 0 {
        0
    } else {
        hex_prefix_value(h, (i - 1) as nat) * 16 + ((h >> ((60 - 4 * (i - 1)) as u64)) & 0xf) as nat
    }
}

proof fn lemma_hex_prefix_value(h: u64, i: nat)
    requires
        1 <= i <= 16,
    ensures
        hex_prefix_value(h, i) == (h >> ((64 - 4 * i) as u64)) as nat,
    decreases i,
{
    let sh: u64 = (60 - 4 * (i - 1)) as u64;
    if i == 1 {
        assert((h >> 60u64) & 0xf == h >> 60u64) by (bit_vector);
    } else {
        lemma_hex_prefix_value(h, (i - 1) as nat);
        let sh0: u64 = (64 - 4 * (i - 1)) as u64;
        assert(sh0 == sh + 4);
        assert((h >> sh) == (h >> sh0) * 16 + ((h >> sh) & 0xf)) by (bit_vector)
            requires
                sh0 == sh + 4,
                sh < 60;
        assert(hex_prefix_value(h, i) == hex_prefix_value(h, (i - 1) as nat) * 16 + ((h >> sh) & 0xf) as nat);
        assert(hex_prefix_value(h, (i - 1) as nat) == (h >> sh0) as nat);
        assert(sh == (64 - 4 * i) as u64);
    }
}

proof fn lemma_hex_digits_read(h: u64, i: nat)
    requires
        i <= 16,
    ensures
        crate::text::digits_from(hex16(h), i as int, hex_prefix_value(h, i), 16, u64::MAX as nat, crate::text::IntError::PosOverflow)
            == Ok::<nat, crate::text::IntError>(hex_prefix_value(h, 16)),
    decreases 16 - i,
{
    if i < 16 {
        let sh: u64 = (60 - 4 * i) as u64;
        let v = (h >> sh) & 0xf;
        assert(v <= 15) by (bit_vector)
            requires v == (h >> sh) & 0xf;
        assert(hex_prefix_value(h, i + 1) == hex_prefix_value(h, i) * 16 + v as nat);
        lemma_hex_prefix_value(h, i + 1);
        assert(hex_prefix_value(h, i + 1) <= u64::MAX);
        lemma_hex_digits_read(h, i + 1);
    }
}

/// A fingerprint is 16 lower-case hex digits, and read back as a base-16
/// number it is the FNV-1a hash it was written from.
pub proof fn lemma_hex16_reads_back(h: u64)
    ensures
        hex16(h).len() == 16,
        forall|i: int| 0 <= i < 16 ==> is_hex_digit(#[trigger] hex16(h)[i]),
        crate::text::parse_unsigned_spec(hex16(h), 16, u64::MAX as nat) == Ok::<nat, crate::text::IntError>(h as nat),
{
    lemma_hex16_digits(h);
    lemma_hex_digits_read(h, 0);
    lemma_hex_prefix_value(h, 16);
    assert(h >> 0u64 == h) by (bit_vector);
    assert(hex16(h)[0] != 0x2b);
}

} // verus!
