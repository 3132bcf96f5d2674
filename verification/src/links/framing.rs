//! Reed-Solomon framing of link packets: the bytes of a packet are cut into
//! blocks of 249 bytes, each block carries six bytes of error correction, and
//! a received frame is corrected block by block.
use vstd::prelude::*;

verus! {

/// The number of error correction bytes in each block.
pub const ECC_LENGTH: usize = 6;

/// The number of packet bytes in a full block.
pub const BLOCK_DATA_LENGTH: usize = 249;

/// The number of bytes of a full encoded block.
pub const BLOCK_LENGTH: usize = 255;

/// Why a link failed.
#[derive(Clone, Copy, Debug, PartialEq, Eq, Structural)]
pub enum LinkError {
    /// A block held more errors than its correction code can repair.
    CorruptedBeyondRecovery,
    /// A channel link was given an address that is not a channel's.
    ExpectedMpsc,
    /// A UDP link was given an address that is not a UDP one.
    ExpectedUdpIp,
}

/// The `ecc_len` error correction bytes that the Reed-Solomon encoder
/// appends to `data`.
pub uninterp spec fn spec_rs_ecc(data: Seq<u8>, ecc_len: usize) -> Seq<u8>;

/// What the Reed-Solomon decoder with `ecc_len` correction bytes makes of an
/// encoded block: its corrected data, or nothing when the block is corrupted
/// beyond recovery.
pub uninterp spec fn spec_rs_correct(block: Seq<u8>, ecc_len: usize) -> Option<Seq<u8>>;

/// `reed_solomon::Encoder::new(ecc_len).encode(data)`: the data followed by
/// its correction bytes. The contract claims that the block is the data
/// followed by `ecc_len` named correction bytes, and that the decoder gives
/// the data back from an unaltered block (its syndromes are all zero).
#[verifier::external_body]
fn rs_encode_block(data: &[u8], ecc_len: usize) -> (r: Vec<u8>)
    requires
        1 <= ecc_len,
        data@.len() + ecc_len <= BLOCK_LENGTH,
    ensures
        r@ == data@ + spec_rs_ecc(data@, ecc_len),
        r@.len() == data@.len() + ecc_len,
        spec_rs_correct(r@, ecc_len) == Some(data@),
{
    let enc = reed_solomon::Encoder::new(ecc_len);
    let block = enc.encode(data);
    block.to_vec()
}

/// The number of positions at which `a` and `b` differ, over the shorter
/// of the two.
pub open spec fn count_diff(a: Seq<u8>, b: Seq<u8>) -> nat
    decreases a.len(),
{
    if a.len() == 0 || b.len() == 0 {
        0
    } else {
        count_diff(a.drop_last(), b.drop_last()) + if a.last() != b.last() {
            1nat
        } else {
            0nat
        }
    }
}

/// Whether `a` is `b` with at most `k` bytes changed.
pub open spec fn within_errors(a: Seq<u8>, b: Seq<u8>, k: nat) -> bool {
    a.len() == b.len() && count_diff(a, b) <= k
}

/// `reed_solomon::Decoder::new(ecc_len).correct(block, None)`: the
/// corrected data of a block, or `None` where the decoder reports too many
/// errors. The contract names the outcome, claims that corrected data is
/// `ecc_len` bytes shorter than the block, and claims that a block which is
/// the encoding of some data with at most `ecc_len / 2` bytes changed is
/// corrected to that data (the Berlekamp-Massey decoder corrects up to half
/// as many errors as there are correction bytes).
#[verifier::external_body]
fn rs_correct_block(block: &[u8], ecc_len: usize) -> (r: Option<Vec<u8>>)
    requires
        1 <= ecc_len <= block@.len() <= BLOCK_LENGTH,
    ensures
        match r {
            Some(v) => spec_rs_correct(block@, ecc_len) == Some(v@) && v@.len() + ecc_len == block@.len(),
            None => spec_rs_correct(block@, ecc_len) is None,
        },
        forall|data: Seq<u8>|
            #![trigger spec_rs_ecc(data, ecc_len)]
            data.len() >= 1 && within_errors(block@, data + spec_rs_ecc(data, ecc_len), ecc_len as nat / 2)
                ==> r is Some && r->0@ == data,
{
    let dec = reed_solomon::Decoder::new(ecc_len);
    match dec.correct(block, None) {
        Ok(buffer) => Some(buffer.data().to_vec()),
        Err(_) => None,
    }
}

/// The smaller of `n` and `m`.
pub open spec fn min_len(n: nat, m: nat) -> nat {
    if n < m {
        n
    } else {
        m
    }
}

/// The frame of the packet bytes `s`: each block of up to 249 bytes followed
/// by its correction bytes.
pub open spec fn spec_encode(s: Seq<u8>) -> Seq<u8>
    decreases s.len(),
{
    if s.len() == 0 {
        Seq::empty()
    } else {
        let n = min_len(s.len(), BLOCK_DATA_LENGTH as nat);
        let c = s.take(n as int);
        c + spec_rs_ecc(c, ECC_LENGTH) + spec_encode(s.skip(n as int))
    }
}

/// The packet bytes read back from the frame `m`, block of 255 bytes by
/// block; nothing when a block cannot be corrected.
pub open spec fn spec_decode(m: Seq<u8>) -> Option<Seq<u8>>
    decreases m.len(),
{
    if m.len() == 0 {
        Some(Seq::empty())
    } else {
        let n = min_len(m.len(), BLOCK_LENGTH as nat);
        match spec_rs_correct(m.take(n as int), ECC_LENGTH) {
            None => None,
            Some(d) => match spec_decode(m.skip(n as int)) {
                None => None,
                Some(rest) => Some(d + rest),
            },
        }
    }
}

/// Whether the frame `m` is the frame of the packet bytes `s` with at most
/// three bytes changed in each block.
pub open spec fn near_encoding(m: Seq<u8>, s: Seq<u8>) -> bool
    decreases s.len(),
{
    if s.len() == 0 {
        m.len() == 0
    } else {
        let n = min_len(s.len(), BLOCK_DATA_LENGTH as nat);
        let c = s.take(n as int);
        let k = n + ECC_LENGTH;
        &&& m.len() >= k
        &&& within_errors(m.take(k as int), c + spec_rs_ecc(c, ECC_LENGTH), (ECC_LENGTH / 2) as nat)
        &&& near_encoding(m.skip(k as int), s.skip(n as int))
    }
}

/// The first block of a frame near the frame of `t`: it is as long as the
/// decoder reads it, holds the first bytes of `t` with at most three bytes
/// changed, and the rest of the frame is near the frame of the rest of `t`.
proof fn lemma_near_step(rest: Seq<u8>, t: Seq<u8>)
    requires
        near_encoding(rest, t),
        rest.len() > 0,
    ensures
        t.len() > 0,
        min_len(rest.len(), BLOCK_LENGTH as nat) == min_len(t.len(), BLOCK_DATA_LENGTH as nat) + ECC_LENGTH,
        within_errors(
            rest.take(min_len(rest.len(), BLOCK_LENGTH as nat) as int),
            t.take(min_len(t.len(), BLOCK_DATA_LENGTH as nat) as int) + spec_rs_ecc(
                t.take(min_len(t.len(), BLOCK_DATA_LENGTH as nat) as int),
                ECC_LENGTH,
            ),
            3,
        ),
        near_encoding(
            rest.skip(min_len(rest.len(), BLOCK_LENGTH as nat) as int),
            t.skip(min_len(t.len(), BLOCK_DATA_LENGTH as nat) as int),
        ),
{
    let n = min_len(t.len(), BLOCK_DATA_LENGTH as nat);
    let k = n + ECC_LENGTH;
    if t.len() < BLOCK_DATA_LENGTH {
        let tail = rest.skip(k as int);
        assert(t.skip(n as int).len() == 0);
        assert(near_encoding(tail, t.skip(n as int)));
        assert(tail.len() == 0);
        assert(rest.len() == k);
    }
}

/// A frame near the frame of some packet bytes can be handed to the
/// decoder.
pub proof fn lemma_near_encoding_decodable(m: Seq<u8>, s: Seq<u8>)
    requires
        near_encoding(m, s),
    ensures
        decodable_length(m.len()),
    decreases s.len(),
{
    if s.len() > 0 {
        let n = min_len(s.len(), BLOCK_DATA_LENGTH as nat);
        let k = n + ECC_LENGTH;
        lemma_near_encoding_decodable(m.skip(k as int), s.skip(n as int));
        if s.len() >= BLOCK_DATA_LENGTH {
            let r = m.skip(k as int).len();
            assert(m.len() == r + 255);
            assert((r + 255) % 255 == r % 255) by (nonlinear_arith);
        } else {
            assert(near_encoding(m.skip(k as int), s.skip(n as int)));
            assert(s.skip(n as int).len() == 0);
            assert(m.len() == k);
        }
    }
}

/// `p` put in front of the bytes of `o`, if there are any.
pub open spec fn prepend(p: Seq<u8>, o: Option<Seq<u8>>) -> Option<Seq<u8>> {
    match o {
        None => None,
        Some(r) => Some(p + r),
    }
}

/// Whether a frame of `n` bytes can be handed to the decoder: its last block
/// holds at least the correction bytes.
pub open spec fn decodable_length(n: nat) -> bool {
    n % (BLOCK_LENGTH as nat) == 0 || n % (BLOCK_LENGTH as nat) >= ECC_LENGTH
}

/// Reading back a frame made of full blocks followed by more bytes reads the
/// full blocks, then the rest.
pub proof fn lemma_decode_concat(a: Seq<u8>, b: Seq<u8>)
    requires
        a.len() % (BLOCK_LENGTH as nat) == 0,
    ensures
        spec_decode(a + b) == match spec_decode(a) {
            None => None,
            Some(x) => prepend(x, spec_decode(b)),
        },
    decreases a.len(),
{
    if a.len() == 0 {
        assert(a + b =~= b);
        match spec_decode(b) {
            None => {},
            Some(r) => {
                assert(Seq::<u8>::empty() + r =~= r);
            },
        }
    } else {
        let n = BLOCK_LENGTH as int;
        assert(a.len() >= n);
        assert((a + b).take(n) =~= a.take(n));
        assert((a + b).skip(n) =~= a.skip(n) + b);
        assert(a.skip(n).len() % (BLOCK_LENGTH as nat) == 0) by {
            assert(a.skip(n).len() == a.len() - n);
        }
        lemma_decode_concat(a.skip(n), b);
        match spec_rs_correct(a.take(n), ECC_LENGTH) {
            None => {},
            Some(d) => match spec_decode(a.skip(n)) {
                None => {},
                Some(rest) => match spec_decode(b) {
                    None => {},
                    Some(rb) => {
                        assert(d + (rest + rb) =~= (d + rest) + rb);
                    },
                },
            },
        }
    }
}

/// The frame of the packet bytes `s`: blocks of at most 249 bytes, each
/// followed by its six correction bytes. Decoding the frame gives `s` back.
pub fn encode(s: &[u8]) -> (r: Vec<u8>)
    ensures
        r@ == spec_encode(s@),
        spec_decode(r@) == Some(s@),
{
    let mut out: Vec<u8> = Vec::new();
    let mut i: usize = 0;
    assert(s@.skip(0) =~= s@);
    assert(out@ + spec_encode(s@) =~= spec_encode(s@));
    assert(s@.take(0) =~= Seq::<u8>::empty());
    while i < s.len()
        invariant
            i <= s@.len(),
            out@ + spec_encode(s@.skip(i as int)) == spec_encode(s@),
            i < s@.len() ==> out@.len() % (BLOCK_LENGTH as nat) == 0,
            spec_decode(out@) == Some(s@.take(i as int)),
        decreases s@.len() - i,
    {
        let end: usize = if s.len() - i < BLOCK_DATA_LENGTH { s.len() } else { i + BLOCK_DATA_LENGTH };
        let chunk = &s[i..end];
        let block = rs_encode_block(chunk, ECC_LENGTH);
        proof {
            let rest = s@.skip(i as int);
            let n = min_len(rest.len(), BLOCK_DATA_LENGTH as nat);
            assert(n == end - i);
            assert(rest.take(n as int) =~= chunk@);
            assert(rest.skip(n as int) =~= s@.skip(end as int));
            assert(spec_encode(rest) == chunk@ + spec_rs_ecc(chunk@, ECC_LENGTH) + spec_encode(s@.skip(end as int)));
            assert(out@ + block@ + spec_encode(s@.skip(end as int)) =~= out@ + spec_encode(rest));
            // reading back the new block
            let nb = block@.len();
            assert(nb == chunk@.len() + ECC_LENGTH);
            assert(block@.take(min_len(nb, BLOCK_LENGTH as nat) as int) =~= block@);
            assert(block@.skip(min_len(nb, BLOCK_LENGTH as nat) as int) =~= Seq::<u8>::empty());
            assert(spec_decode(Seq::<u8>::empty()) == Some(Seq::<u8>::empty()));
            assert(chunk@ + Seq::<u8>::empty() =~= chunk@);
            assert(spec_decode(block@) == Some(chunk@));
            lemma_decode_concat(out@, block@);
            assert(s@.take(i as int) + chunk@ =~= s@.take(end as int));
        }
        let mut b = block;
        out.append(&mut b);
        i = end;
    }
    assert(s@.skip(i as int) =~= Seq::<u8>::empty());
    assert(s@.take(i as int) =~= s@);
    assert(out@ + Seq::<u8>::empty() =~= out@);
    out
}

/// The packet bytes read back from the frame `m`, or an error where a block
/// is corrupted beyond recovery. A frame that is the frame of some packet
/// bytes with at most three bytes changed in each block gives those bytes.
pub fn decode(m: &[u8]) -> (r: Result<Vec<u8>, LinkError>)
    requires
        decodable_length(m@.len()),
    ensures
        match r {
            Ok(v) => spec_decode(m@) == Some(v@),
            Err(e) => spec_decode(m@) is None && e == LinkError::CorruptedBeyondRecovery,
        },
        forall|s: Seq<u8>| #[trigger] near_encoding(m@, s) ==> (r matches Ok(v) && v@ == s),
{
    let mut out: Vec<u8> = Vec::new();
    let mut i: usize = 0;
    let ghost mut j: int = 0;
    assert(m@.skip(0) =~= m@);
    proof {
        match spec_decode(m@) {
            None => {},
            Some(r0) => {
                assert(out@ + r0 =~= r0);
            },
        }
        assert forall|s: Seq<u8>| #[trigger] near_encoding(m@, s) implies 0 <= j <= s.len() && out@ == s.take(j)
            && near_encoding(m@.skip(i as int), s.skip(j)) by {
            assert(s.take(0) =~= Seq::<u8>::empty());
            assert(s.skip(0) =~= s);
        }
    }
    while i < m.len()
        invariant
            i <= m@.len(),
            i < m@.len() ==> (m@.len() - i) % 255int == (m@.len() as int) % 255int,
            decodable_length(m@.len()),
            spec_decode(m@) == prepend(out@, spec_decode(m@.skip(i as int))),
            forall|s: Seq<u8>| #[trigger] near_encoding(m@, s) ==> 0 <= j <= s.len() && out@ == s.take(j)
                && near_encoding(m@.skip(i as int), s.skip(j)),
        decreases m@.len() - i,
    {
        let end: usize = if m.len() - i < BLOCK_LENGTH { m.len() } else { i + BLOCK_LENGTH };
        let ghost rest = m@.skip(i as int);
        assert(rest.take((end - i) as int) =~= m@.subrange(i as int, end as int));
        assert(rest.skip((end - i) as int) =~= m@.skip(end as int));
        assert(end - i == min_len(rest.len(), BLOCK_LENGTH as nat));
        let chunk = &m[i..end];
        let result = rs_correct_block(chunk, ECC_LENGTH);
        proof {
            assert forall|s: Seq<u8>| #[trigger] near_encoding(m@, s) implies ({
                let t = s.skip(j);
                let n = min_len(t.len(), BLOCK_DATA_LENGTH as nat);
                &&& n + ECC_LENGTH == end - i
                &&& (result matches Some(v) && v@ == t.take(n as int))
                &&& near_encoding(m@.skip(end as int), t.skip(n as int))
            }) by {
                let t = s.skip(j);
                lemma_near_step(rest, t);
                let n = min_len(t.len(), BLOCK_DATA_LENGTH as nat);
                let c = t.take(n as int);
                assert(chunk@ == rest.take((end - i) as int));
                assert(within_errors(chunk@, c + spec_rs_ecc(c, ECC_LENGTH), ECC_LENGTH as nat / 2));
            }
        }
        match result {
            None => {
                proof {
                    assert forall|s: Seq<u8>| #[trigger] near_encoding(m@, s) implies false by {
                        let t = s.skip(j);
                        let n = min_len(t.len(), BLOCK_DATA_LENGTH as nat);
                        assert(result matches Some(v) && v@ == t.take(n as int));
                    }
                }
                return Err(LinkError::CorruptedBeyondRecovery);
            },
            Some(d) => {
                proof {
                    match spec_decode(m@.skip(end as int)) {
                        None => {},
                        Some(rr) => {
                            assert(out@ + (d@ + rr) =~= (out@ + d@) + rr);
                        },
                    }
                }
                let ghost old_out = out@;
                let mut dd = d;
                out.append(&mut dd);
                proof {
                    let step = (end - i - ECC_LENGTH) as int;
                    assert forall|s: Seq<u8>| #[trigger] near_encoding(m@, s) implies 0 <= j + step <= s.len()
                        && out@ == s.take(j + step) && near_encoding(m@.skip(end as int), s.skip(j + step)) by {
                        let t = s.skip(j);
                        let n = min_len(t.len(), BLOCK_DATA_LENGTH as nat);
                        assert(n == step);
                        assert(d@ == t.take(n as int));
                        assert(old_out == s.take(j));
                        assert(s.take(j + step) =~= s.take(j) + t.take(n as int));
                        assert(t.skip(n as int) =~= s.skip(j + step));
                    }
                    j = j + step;
                }
            },
        }
        i = end;
    }
    assert(m@.skip(i as int) =~= Seq::<u8>::empty());
    assert(out@ + Seq::<u8>::empty() =~= out@);
    proof {
        assert forall|s: Seq<u8>| #[trigger] near_encoding(m@, s) implies out@ == s by {
            let t = s.skip(j);
            assert(near_encoding(m@.skip(i as int), t));
            if t.len() > 0 {
                let n = min_len(t.len(), BLOCK_DATA_LENGTH as nat);
                assert(m@.skip(i as int).len() >= n + ECC_LENGTH);
            }
            assert(s.take(j) =~= s);
        }
    }
    Ok(out)
}

} // verus!
