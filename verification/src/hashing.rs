//! Hashing names into bloom filter indices.
//!
//! A name is hashed, the digest written as lowercase hexadecimal text, that
//! text is cut into pieces of sixteen characters, and the hexadecimal values
//! of the pieces are summed modulo the bloom filter length.
use vstd::prelude::*;
use crate::common::BLOOM_FILTER_LENGTH;

verus! {

/// The digest of the 256-bit BLAKE2b hash of a byte sequence.
pub uninterp spec fn spec_blake2b_256(data: Seq<u8>) -> Seq<u8>;

/// The digest of the SHA3-512 hash of a byte sequence.
pub uninterp spec fn spec_sha3_512(data: Seq<u8>) -> Seq<u8>;

/// BLAKE2b with a 32-byte output (`cryptoxide::blake2b::Blake2b`), over `data`.
/// The contract claims only that the digest is the named function of the input.
#[verifier::external_body]
pub(crate) fn blake2b_256(data: &[u8]) -> (r: [u8; 32])
    ensures
        r@ == spec_blake2b_256(data@),
{
    let mut out = [0u8; 32];
    let mut b = cryptoxide::blake2b::Blake2b::new(32);
    cryptoxide::digest::Digest::input(&mut b, data);
    cryptoxide::digest::Digest::result(&mut b, &mut out);
    out
}

/// SHA3-512 (`sha3::Sha3_512`) over `data`: the 64 bytes of the digest, which
/// the contract names as a function of the input.
#[verifier::external_body]
pub(crate) fn sha3_512(data: &[u8]) -> (r: Vec<u8>)
    ensures
        r@ == spec_sha3_512(data@),
        r@.len() == 64,
{
    let mut hasher: sha3::Sha3_512 = sha3::Digest::new();
    sha3::Digest::input(&mut hasher, data);
    sha3::Digest::result(hasher).to_vec()
}

/// The lowercase hexadecimal character of a digit below sixteen.
pub open spec fn hex_char(d: nat) -> u8 {
    if d < 10 {
        (48 + d) as u8
    } else {
        (87 + d) as u8
    }
}

/// The value of a lowercase hexadecimal character.
pub open spec fn hex_char_value(c: u8) -> nat {
    if 48 <= c <= 57 {
        (c - 48) as nat
    } else if 97 <= c <= 102 {
        (c - 87) as nat
    } else {
        0
    }
}

/// A byte in hexadecimal with two digits, as `{:02x}` writes it.
pub open spec fn hex_byte_padded(b: u8) -> Seq<u8> {
    seq![hex_char((b / 16) as nat), hex_char((b % 16) as nat)]
}

/// A byte in hexadecimal without a leading zero, as `{:x}` writes it.
pub open spec fn hex_byte_unpadded(b: u8) -> Seq<u8> {
    if b < 16 {
        seq![hex_char(b as nat)]
    } else {
        hex_byte_padded(b)
    }
}

/// The hexadecimal text of a byte sequence, two digits per byte when `padded`.
pub open spec fn hex_text(s: Seq<u8>, padded: bool) -> Seq<u8>
    decreases s.len(),
{
    if s.len() == 0 {
        Seq::empty()
    } else {
        hex_text(s.drop_last(), padded) + if padded {
            hex_byte_padded(s.last())
        } else {
            hex_byte_unpadded(s.last())
        }
    }
}

/// The decimal text of a number.
pub open spec fn decimal_text(n: nat) -> Seq<u8>
    decreases n,
{
    if n < 10 {
        seq![(48 + n) as u8]
    } else {
        decimal_text(n / 10).push((48 + n % 10) as u8)
    }
}

/// The value of a hexadecimal text.
pub open spec fn hex_value(s: Seq<u8>) -> nat
    decreases s.len(),
{
    if s.len() == 0 {
        0
    } else {
        hex_value(s.drop_last()) * 16 + hex_char_value(s.last())
    }
}

/// The `k`-th piece of sixteen characters of `s` (the last may be shorter).
pub open spec fn chunk16(s: Seq<u8>, k: nat) -> Seq<u8> {
    let start: int = 16 * (k as int);
    let end: int = if start + 16 <= s.len() {
        start + 16
    } else {
        s.len() as int
    };
    s.subrange(start, end)
}

/// The number of pieces of sixteen characters in a text of length `n`.
pub open spec fn chunk16_count(n: nat) -> nat {
    ((n + 15) / 16) as nat
}

/// The sum of the values of the first `k` pieces of `s`.
pub open spec fn chunk_values_sum(s: Seq<u8>, k: nat) -> nat
    decreases k,
{
    if k == 0 {
        0
    } else {
        chunk_values_sum(s, (k - 1) as nat) + hex_value(chunk16(s, (k - 1) as nat))
    }
}

/// The bloom filter position that a hexadecimal text names: the sum of the
/// values of its pieces, modulo the bloom filter length.
pub open spec fn text_index(s: Seq<u8>) -> nat {
    chunk_values_sum(s, chunk16_count(s.len())) % (BLOOM_FILTER_LENGTH as nat)
}

/// The hexadecimal character of a digit.
fn hex_digit(d: u8) -> (r: u8)
    requires
        d < 16,
    ensures
        r == hex_char(d as nat),
{
    if d < 10 {
        48 + d
    } else {
        87 + d
    }
}

/// The hexadecimal text of `s`, two digits per byte when `padded`, else
/// without leading zeros.
pub fn hex_string(s: &[u8], padded: bool) -> (r: Vec<u8>)
    ensures
        r@ == hex_text(s@, padded),
{
    let mut out: Vec<u8> = Vec::new();
    let mut i: usize = 0;
    while i < s.len()
        invariant
            i <= s@.len(),
            out@ == hex_text(s@.subrange(0, i as int), padded),
        decreases s@.len() - i,
    {
        let b = s[i];
        if padded || b >= 16 {
            out.push(hex_digit(b / 16));
        }
        out.push(hex_digit(b % 16));
        i = i + 1;
        assert(s@.subrange(0, i as int).drop_last() =~= s@.subrange(0, (i - 1) as int));
        assert(out@ =~= hex_text(s@.subrange(0, i as int), padded));
    }
    assert(s@.subrange(0, i as int) =~= s@);
    out
}

/// The decimal text of `n`.
pub fn decimal_string(n: u64) -> (r: Vec<u8>)
    ensures
        r@ == decimal_text(n as nat),
    decreases n,
{
    if n < 10 {
        let mut v: Vec<u8> = Vec::new();
        v.push(48 + n as u8);
        assert(v@ =~= decimal_text(n as nat));
        v
    } else {
        let mut v = decimal_string(n / 10);
        v.push(48 + (n % 10) as u8);
        v
    }
}

/// The value of a hexadecimal text, modulo the bloom filter length.
fn hex_value_mod(s: &[u8], start: usize, end: usize) -> (r: u64)
    requires
        start <= end <= s@.len(),
    ensures
        r == hex_value(s@.subrange(start as int, end as int)) % (BLOOM_FILTER_LENGTH as nat),
{
    let l = BLOOM_FILTER_LENGTH;
    let mut acc: u64 = 0;
    let mut j: usize = start;
    while j < end
        invariant
            start <= j <= end <= s@.len(),
            l == BLOOM_FILTER_LENGTH,
            acc == hex_value(s@.subrange(start as int, j as int)) % (l as nat),
        decreases end - j,
    {
        let c = s[j];
        let d: u64 = if 48 <= c && c <= 57 {
            (c - 48) as u64
        } else if 97 <= c && c <= 102 {
            (c - 87) as u64
        } else {
            0
        };
        let ghost prev = hex_value(s@.subrange(start as int, j as int));
        let ghost sub = s@.subrange(start as int, j + 1);
        assert(sub.drop_last() =~= s@.subrange(start as int, j as int));
        assert(hex_value(sub) == prev * 16 + d);
        proof {
            lemma_mod_step(prev, d as nat, l as nat);
        }
        acc = (acc * 16 + d) % l;
        j = j + 1;
    }
    acc
}

/// Reducing before one more digit gives the same remainder.
proof fn lemma_mod_step(v: nat, d: nat, l: nat)
    requires
        l > 0,
    ensures
        ((v % l) * 16 + d) % l == (v * 16 + d) % l,
{
    vstd::arithmetic::div_mod::lemma_fundamental_div_mod(v as int, l as int);
    let q = v / l;
    let r = v % l;
    assert(v * 16 + d == (r * 16 + d) + l * (q * 16)) by (nonlinear_arith)
        requires
            v == l * q + r,
    ;
    vstd::arithmetic::div_mod::lemma_mod_multiples_vanish((q * 16) as int, (r * 16 + d) as int, l as int);
}

/// The bloom filter position named by the hexadecimal text `s`.
pub fn index_of_text(s: &[u8]) -> (r: u16)
    ensures
        r == text_index(s@),
{
    let l = BLOOM_FILTER_LENGTH;
    let n = s.len();
    let count = n / 16 + if n % 16 == 0 {
        0
    } else {
        1
    };
    assert(count == chunk16_count(n as nat));
    let mut index: u64 = 0;
    let mut k: usize = 0;
    while k < count
        invariant
            k <= count == chunk16_count(s@.len()),
            n == s@.len(),
            l == BLOOM_FILTER_LENGTH,
            index == chunk_values_sum(s@, k as nat) % (l as nat),
        decreases count - k,
    {
        assert(16 * k < n) by (nonlinear_arith)
            requires
                k < count,
                count == n / 16 + if n % 16 == 0 {
                    0int
                } else {
                    1int
                },
        ;
        let start = 16 * k;
        let end = if n - start >= 16 {
            start + 16
        } else {
            n
        };
        let o = hex_value_mod(s, start, end);
        proof {
            vstd::arithmetic::div_mod::lemma_add_mod_noop(
                chunk_values_sum(s@, k as nat) as int,
                hex_value(chunk16(s@, k as nat)) as int,
                l as int,
            );
        }
        index = (index + o) % l;
        k = k + 1;
    }
    index as u16
}

} // verus!
