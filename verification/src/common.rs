//! Constants of the wire format and big-endian byte conversions.
use vstd::prelude::*;

verus! {

/// Number of bits in a bloom filter; every bloom filter index is below it.
pub const BLOOM_FILTER_LENGTH: u64 = 65535;
/// Number of indices in one bloom filter index (`BFI`).
pub const BLOOM_FILTER_INDEX_ELEMENT_LENGTH: usize = 4;
/// Bytes taken by one serialised `BFI`.
pub const BFI_BYTE_SIZE: usize = 8;
/// Number of `BFI`s in a hierarchical bloom filter index.
pub const BFI_COUNT: usize = 6;
/// Bytes taken by a serialised frame counter.
pub const FRAME_SIZE: usize = 8;
/// Bytes of a public key.
pub const ID_SIZE: usize = 32;
/// Bytes of a chain code.
pub const CC_SIZE: usize = 32;
/// Start of the frame counter in a serialised HBFI.
pub const HBFI_FRAME_START: usize = 48;
/// End of the frame counter in a serialised HBFI.
pub const HBFI_FRAME_END: usize = 56;
/// Start of the response key in a serialised HBFI.
pub const HBFI_RESPONSE_KEY_START: usize = 56;
/// End of the response key in a serialised HBFI.
pub const HBFI_RESPONSE_KEY_END: usize = 120;
/// Start of the request key in a serialised HBFI.
pub const HBFI_REQUEST_KEY_START: usize = 120;
/// End of the request key in a serialised HBFI.
pub const HBFI_REQUEST_KEY_END: usize = 184;
/// Length of a serialised HBFI without a request identity.
pub const CLEARTEXT_HBFI_SIZE: usize = 120;
/// Length of a serialised HBFI with a request identity.
pub const CYPHERTEXT_HBFI_SIZE: usize = 184;
/// Bytes of a data fragment.
pub const FRAGMENT_SIZE: usize = 1024;
/// Position of the high byte of the payload length inside a data fragment.
pub const LENGTH_OF_DATA_STARTING_POSITION: usize = 1022;
/// Position of the low byte of the payload length inside a data fragment.
pub const LENGTH_OF_DATA_ENDING_POSITION: usize = 1023;

/// Big-endian value of two bytes.
pub open spec fn spec_u16_from_be(hi: u8, lo: u8) -> u16 {
    (hi as u16 * 256 + lo as u16) as u16
}

/// Converts two big-endian bytes into a `u16`.
pub fn u8_to_u16(b: [u8; 2]) -> (r: u16)
    ensures
        r == spec_u16_from_be(b[0], b[1]),
{
    (b[0] as u16) * 256 + (b[1] as u16)
}

/// Converts a `u16` into two big-endian bytes.
pub fn u16_to_u8(x: u16) -> (r: [u8; 2])
    ensures
        r[0] == x / 256,
        r[1] == x % 256,
        spec_u16_from_be(r[0], r[1]) == x,
{
    [(x / 256) as u8, (x % 256) as u8]
}

/// Big-endian value of the first eight bytes of `b`.
pub open spec fn spec_u64_from_be(b: Seq<u8>) -> u64 {
    ((b[0] as u64) << 56u64) | ((b[1] as u64) << 48u64) | ((b[2] as u64) << 40u64) | ((b[3] as u64)
        << 32u64) | ((b[4] as u64) << 24u64) | ((b[5] as u64) << 16u64) | ((b[6] as u64) << 8u64) | (
    b[7] as u64)
}

/// The eight big-endian bytes of `x`.
pub open spec fn spec_u64_to_be(x: u64) -> Seq<u8> {
    seq![
        (x >> 56u64) as u8,
        (x >> 48u64) as u8,
        (x >> 40u64) as u8,
        (x >> 32u64) as u8,
        (x >> 24u64) as u8,
        (x >> 16u64) as u8,
        (x >> 8u64) as u8,
        x as u8,
    ]
}

/// Converts eight big-endian bytes into a `u64`.
pub fn u8_to_u64(b: [u8; 8]) -> (r: u64)
    ensures
        r == spec_u64_from_be(b@),
{
    ((b[0] as u64) << 56u64) | ((b[1] as u64) << 48u64) | ((b[2] as u64) << 40u64) | ((b[3] as u64)
        << 32u64) | ((b[4] as u64) << 24u64) | ((b[5] as u64) << 16u64) | ((b[6] as u64) << 8u64) | (
    b[7] as u64)
}

/// Converts a `u64` into eight big-endian bytes.
pub fn u64_to_u8(x: u64) -> (r: [u8; 8])
    ensures
        r@ == spec_u64_to_be(x),
{
    let r = [
        (x >> 56u64) as u8,
        (x >> 48u64) as u8,
        (x >> 40u64) as u8,
        (x >> 32u64) as u8,
        (x >> 24u64) as u8,
        (x >> 16u64) as u8,
        (x >> 8u64) as u8,
        x as u8,
    ];
    assert(r@ =~= spec_u64_to_be(x));
    r
}

/// Reading back the bytes of a value gives the value.
pub proof fn lemma_u64_be_roundtrip(x: u64)
    ensures
        spec_u64_from_be(spec_u64_to_be(x)) == x,
{
    let b = spec_u64_to_be(x);
    assert(b[0] == (x >> 56u64) as u8 && b[7] == x as u8);
    assert(((((x >> 56u64) as u8) as u64) << 56u64) | ((((x >> 48u64) as u8) as u64) << 48u64) | ((((x
        >> 40u64) as u8) as u64) << 40u64) | ((((x >> 32u64) as u8) as u64) << 32u64) | ((((x
        >> 24u64) as u8) as u64) << 24u64) | ((((x >> 16u64) as u8) as u64) << 16u64) | ((((x
        >> 8u64) as u8) as u64) << 8u64) | ((x as u8) as u64) == x) by (bit_vector);
}

/// Writing the value of eight bytes gives those bytes back.
pub proof fn lemma_u64_be_roundtrip_bytes(b: Seq<u8>)
    requires
        b.len() == 8,
    ensures
        spec_u64_to_be(spec_u64_from_be(b)) == b,
{
    let (b0, b1, b2, b3, b4, b5, b6, b7) = (b[0], b[1], b[2], b[3], b[4], b[5], b[6], b[7]);
    let v = spec_u64_from_be(b);
    assert(v == ((b0 as u64) << 56u64) | ((b1 as u64) << 48u64) | ((b2 as u64) << 40u64) | ((b3 as u64)
        << 32u64) | ((b4 as u64) << 24u64) | ((b5 as u64) << 16u64) | ((b6 as u64) << 8u64) | (
    b7 as u64));
    assert((v >> 56u64) as u8 == b0 && (v >> 48u64) as u8 == b1 && (v >> 40u64) as u8 == b2 && (v
        >> 32u64) as u8 == b3 && (v >> 24u64) as u8 == b4 && (v >> 16u64) as u8 == b5 && (v
        >> 8u64) as u8 == b6 && v as u8 == b7) by (bit_vector)
        requires
            v == ((b0 as u64) << 56u64) | ((b1 as u64) << 48u64) | ((b2 as u64) << 40u64) | ((
            b3 as u64) << 32u64) | ((b4 as u64) << 24u64) | ((b5 as u64) << 16u64) | ((b6 as u64)
                << 8u64) | (b7 as u64),
    ;
    assert(spec_u64_to_be(v) =~= b);
}

} // verus!

verus! {

/// Appends every byte of `s` to `buf`.
pub fn append_bytes(buf: &mut Vec<u8>, s: &[u8])
    ensures
        final(buf)@ == old(buf)@ + s@,
{
    let ghost start = buf@;
    let mut i: usize = 0;
    while i < s.len()
        invariant
            i <= s@.len(),
            buf@ == start + s@.subrange(0, i as int),
        decreases s@.len() - i,
    {
        buf.push(s[i]);
        i = i + 1;
        assert(s@.subrange(0, i as int) =~= s@.subrange(0, (i - 1) as int).push(s@[i - 1]));
    }
    assert(s@.subrange(0, i as int) =~= s@);
}

/// Copies the eight bytes of `data` from `start` on.
pub fn read_array8(data: &[u8], start: usize) -> (r: [u8; 8])
    requires
        start + 8 <= data@.len(),
    ensures
        r@ == data@.subrange(start as int, start + 8),
{
    let r = [
        data[start],
        data[start + 1],
        data[start + 2],
        data[start + 3],
        data[start + 4],
        data[start + 5],
        data[start + 6],
        data[start + 7],
    ];
    assert(r@ =~= data@.subrange(start as int, start + 8));
    r
}

/// Copies the sixty-four bytes of `data` from `start` on.
pub fn read_array64(data: &[u8], start: usize) -> (r: [u8; 64])
    requires
        start + 64 <= data@.len(),
    ensures
        r@ == data@.subrange(start as int, start + 64),
{
    let mut r = [0u8; 64];
    let mut i: usize = 0;
    while i < 64
        invariant
            i <= 64,
            start + 64 <= data.len(),
            forall|j: int| 0 <= j < i ==> r@[j] == data@[start + j],
        decreases 64 - i,
    {
        r[i] = data[start + i];
        i = i + 1;
    }
    assert(r@ =~= data@.subrange(start as int, start + 64));
    r
}

} // verus!
