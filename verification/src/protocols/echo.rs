//! The echo protocol: a responder answers the four frames of an echo request
//! with the letters of "pong", and a requester reads them back in order.
//!
//! Five kinds of echo exist, one per way of pacing a request; the argument of
//! the request's name tells which one is meant.
use vstd::prelude::*;
use vstd::string::StringExecFns;
use vstd::string::StringSliceAdditionalSpecFns;
use vstd::utf8::{decode_utf8, encode_utf8, valid_utf8};
use crate::packets::bfi::BFI;
use crate::packets::error::PacketError;
use crate::packets::hbfi::{
    bloom_filter_index, spec_bloom_filter_index, spec_interface_index, spec_text_index, HBFI,
};
use crate::packets::identity::{spec_identity_text, PublicIdentity, PublicIdentityInterface};
use crate::packets::narrow_waist::NarrowWaistPacket;
use crate::protocols::txrx::Reliability;

verus! {

/// The `k` little-endian bytes of `n`.
pub open spec fn le_bytes(n: nat, k: nat) -> Seq<u8>
    decreases k,
{
    if k == 0 {
        Seq::empty()
    } else {
        seq![(n % 256) as u8] + le_bytes(n / 256, (k - 1) as nat)
    }
}

/// The value of little-endian bytes.
pub open spec fn le_value(b: Seq<u8>) -> nat
    decreases b.len(),
{
    if b.len() == 0 {
        0
    } else {
        b[0] as nat + 256 * le_value(b.skip(1))
    }
}

/// 256 to the power `k`.
pub open spec fn pow256(k: nat) -> nat
    decreases k,
{
    if k == 0 {
        1
    } else {
        256 * pow256((k - 1) as nat)
    }
}

/// Reading back `k` little-endian bytes gives the number written, when it
/// fits in them.
pub proof fn lemma_le_roundtrip(n: nat, k: nat)
    requires
        n < pow256(k),
    ensures
        le_bytes(n, k).len() == k,
        le_value(le_bytes(n, k)) == n,
    decreases k,
{
    if k > 0 {
        let p = pow256((k - 1) as nat);
        assert(n / 256 < p) by (nonlinear_arith)
            requires n < 256 * p;
        lemma_le_roundtrip(n / 256, (k - 1) as nat);
        let b = le_bytes(n, k);
        assert(b.skip(1) =~= le_bytes(n / 256, (k - 1) as nat));
        assert(n == n % 256 + 256 * (n / 256)) by (nonlinear_arith);
    }
}

/// Bincode's form of a string with UTF-8 bytes `bytes`: its length as eight
/// little-endian bytes, then the bytes.
pub open spec fn spec_bincode_str(bytes: Seq<u8>) -> Seq<u8> {
    le_bytes(bytes.len(), 8) + bytes
}

/// The string bincode reads from `data`: a length, then that many bytes of
/// UTF-8 (what follows is left alone); none when they are not there.
pub open spec fn spec_bincode_read_str(data: Seq<u8>) -> Option<Seq<char>> {
    if data.len() < 8 {
        None
    } else {
        let n = le_value(data.take(8));
        if 8 + n <= data.len() && valid_utf8(data.subrange(8, 8 + n as int)) {
            Some(decode_utf8(data.subrange(8, 8 + n as int)))
        } else {
            None
        }
    }
}

/// `bincode::serialize(&s)` for a string: its length as a `u64`
/// little-endian, then its UTF-8 bytes (bincode's default fixed-width,
/// little-endian encoding; writing a string does not fail).
#[verifier::external_body]
fn bincode_serialize_str(s: &str) -> (r: Vec<u8>)
    ensures
        r@ == spec_bincode_str(s.spec_bytes()),
{
    bincode::serialize(s).unwrap_or_default()
}

/// `bincode::deserialize::<&str>(data)`: the string read from the front of
/// `data`, as `spec_bincode_read_str` says.
#[verifier::external_body]
fn bincode_deserialize_str(data: &[u8]) -> (r: Option<String>)
    ensures
        match r {
            Some(s) => spec_bincode_read_str(data@) == Some(s@),
            None => spec_bincode_read_str(data@) is None,
        },
{
    match bincode::deserialize::<&str>(data) {
        Ok(s) => Some(s.to_string()),
        Err(_) => None,
    }
}

/// Why an echo could not be read back.
#[derive(Clone, Copy, Debug, PartialEq, Eq, Structural)]
pub enum EchoError {
    /// A reply did not hold a string.
    MalformedReply,
}

/// The five kinds of echo.
#[derive(Clone, Copy, Debug, PartialEq, Eq, Structural)]
pub enum EchoKind {
    UnreliableUnordered,
    UnreliableSequenced,
    ReliableUnordered,
    ReliableOrdered,
    ReliableSequenced,
}

/// The reliability that each kind of echo asks its frames with: the
/// unreliable kinds never ask again, the reliable sequenced kind asks again
/// after its sequence head (from frame 0), and the other reliable kinds ask
/// again for every unanswered frame.
pub open spec fn spec_reliability_of(kind: EchoKind) -> Reliability {
    match kind {
        EchoKind::UnreliableUnordered | EchoKind::UnreliableSequenced => Reliability::UnreliableSequenced,
        EchoKind::ReliableSequenced => Reliability::ReliableSequenced(0),
        EchoKind::ReliableUnordered | EchoKind::ReliableOrdered => Reliability::ReliableOrdered,
    }
}

/// The reliability that an echo of `kind` asks its frames with.
pub fn reliability_of(kind: EchoKind) -> (r: Reliability)
    ensures
        r == spec_reliability_of(kind),
{
    match kind {
        EchoKind::UnreliableUnordered | EchoKind::UnreliableSequenced => Reliability::UnreliableSequenced,
        EchoKind::ReliableSequenced => Reliability::ReliableSequenced(0),
        EchoKind::ReliableUnordered | EchoKind::ReliableOrdered => Reliability::ReliableOrdered,
    }
}

/// The argument name of each kind of echo.
pub open spec fn spec_kind_name(k: EchoKind) -> Seq<char> {
    match k {
        EchoKind::UnreliableUnordered => "unreliable_unordered_echo"@,
        EchoKind::UnreliableSequenced => "unreliable_sequenced_echo"@,
        EchoKind::ReliableUnordered => "reliable_unordered_echo"@,
        EchoKind::ReliableOrdered => "reliable_ordered_echo"@,
        EchoKind::ReliableSequenced => "reliable_sequenced_echo"@,
    }
}

/// The kinds of echo in the order a responder tries them.
pub open spec fn kind_at(i: int) -> EchoKind {
    if i == 0 {
        EchoKind::UnreliableUnordered
    } else if i == 1 {
        EchoKind::UnreliableSequenced
    } else if i == 2 {
        EchoKind::ReliableUnordered
    } else if i == 3 {
        EchoKind::ReliableOrdered
    } else {
        EchoKind::ReliableSequenced
    }
}

/// The argument name of an echo kind.
pub fn kind_name(k: EchoKind) -> (r: &'static str)
    ensures
        r@ == spec_kind_name(k),
{
    match k {
        EchoKind::UnreliableUnordered => "unreliable_unordered_echo",
        EchoKind::UnreliableSequenced => "unreliable_sequenced_echo",
        EchoKind::ReliableUnordered => "reliable_unordered_echo",
        EchoKind::ReliableOrdered => "reliable_ordered_echo",
        EchoKind::ReliableSequenced => "reliable_sequenced_echo",
    }
}

/// The name "echo", which is the application, module and function of every
/// echo request.
pub open spec fn echo_name() -> Seq<char> {
    "echo"@
}

/// The indices an echo responder compares the names of packets with.
#[derive(Clone, Copy, Debug)]
pub struct EchoChecks {
    pub res: BFI,
    pub echo: BFI,
    pub args: [BFI; 5],
}

/// The checks of a responder whose identity has the text `identity_text`.
pub open spec fn spec_echo_checks(identity_text: Seq<char>) -> EchoChecks {
    EchoChecks {
        res: spec_bloom_filter_index(encode_utf8(identity_text)),
        echo: spec_bloom_filter_index(encode_utf8(echo_name())),
        args: [
            spec_bloom_filter_index(encode_utf8(spec_kind_name(kind_at(0)))),
            spec_bloom_filter_index(encode_utf8(spec_kind_name(kind_at(1)))),
            spec_bloom_filter_index(encode_utf8(spec_kind_name(kind_at(2)))),
            spec_bloom_filter_index(encode_utf8(spec_kind_name(kind_at(3)))),
            spec_bloom_filter_index(encode_utf8(spec_kind_name(kind_at(4)))),
        ],
    }
}

/// The indices that a responder with the identity text `identity_text`
/// compares incoming names with.
pub fn echo_checks(identity_text: &str) -> (r: EchoChecks)
    ensures
        r == spec_echo_checks(identity_text@),
{
    let res = bloom_filter_index(identity_text).unwrap();
    let echo = bloom_filter_index("echo").unwrap();
    let a0 = bloom_filter_index(kind_name(EchoKind::UnreliableUnordered)).unwrap();
    let a1 = bloom_filter_index(kind_name(EchoKind::UnreliableSequenced)).unwrap();
    let a2 = bloom_filter_index(kind_name(EchoKind::ReliableUnordered)).unwrap();
    let a3 = bloom_filter_index(kind_name(EchoKind::ReliableOrdered)).unwrap();
    let a4 = bloom_filter_index(kind_name(EchoKind::ReliableSequenced)).unwrap();
    let r = EchoChecks { res, echo, args: [a0, a1, a2, a3, a4] };
    assert(r.args =~= spec_echo_checks(identity_text@).args);
    r
}

/// The kind whose argument index is `arg`: the first that matches.
pub open spec fn spec_matched_kind(c: EchoChecks, arg: BFI) -> Option<EchoKind> {
    if c.args[0] == arg {
        Some(kind_at(0))
    } else if c.args[1] == arg {
        Some(kind_at(1))
    } else if c.args[2] == arg {
        Some(kind_at(2))
    } else if c.args[3] == arg {
        Some(kind_at(3))
    } else if c.args[4] == arg {
        Some(kind_at(4))
    } else {
        None
    }
}

/// The text an echo responder answers frame `frm` with: the letters of
/// "pong" for the first four frames, "pang" past them.
pub open spec fn spec_echo_text(frm: u64) -> Seq<char> {
    if frm == 0 {
        "p"@
    } else if frm == 1 {
        "o"@
    } else if frm == 2 {
        "n"@
    } else if frm == 3 {
        "g"@
    } else {
        "pang"@
    }
}

/// What a responder does with a packet.
pub enum EchoAction {
    /// Answer the request for `hbfi` with `payload`.
    Respond { hbfi: HBFI, payload: Vec<u8> },
    /// Hand the response to the requester waiting on this kind of echo.
    Deliver(EchoKind),
    /// Leave the packet alone.
    Ignore,
}

/// Whether a name is an echo name: application, module and function all
/// "echo".
pub open spec fn is_echo_name(c: EchoChecks, h: HBFI) -> bool {
    h.app == c.echo && h.m0d == c.echo && h.fun == c.echo
}

/// The bytes of an echo reply for frame `frm`: bincode's form of its text.
pub fn echo_reply(frm: u64) -> (r: Vec<u8>)
    ensures
        r@ == spec_bincode_str(encode_utf8(spec_echo_text(frm))),
{
    let text: &str = if frm == 0 {
        "p"
    } else if frm == 1 {
        "o"
    } else if frm == 2 {
        "n"
    } else if frm == 3 {
        "g"
    } else {
        "pang"
    };
    bincode_serialize_str(text)
}

/// What an echo responder with checks `c` does with `packet`: a request
/// addressed to it, for an echo name with a known argument, is answered with
/// the reply for its frame; a response for an echo name with a known
/// argument goes to the requester of that kind; anything else is left alone.
pub fn echo_decide(c: &EchoChecks, packet: &NarrowWaistPacket) -> (r: EchoAction)
    ensures
        match *packet {
            NarrowWaistPacket::Request { hbfi } => if hbfi.res == c.res && is_echo_name(*c, hbfi)
                && spec_matched_kind(*c, hbfi.arg) is Some {
                r matches EchoAction::Respond { hbfi: h, payload } && h == hbfi && payload@
                    == spec_bincode_str(encode_utf8(spec_echo_text(hbfi.frm)))
            } else {
                r is Ignore
            },
            NarrowWaistPacket::Response { hbfi, .. } => if is_echo_name(*c, hbfi) {
                match spec_matched_kind(*c, hbfi.arg) {
                    Some(k) => r == EchoAction::Deliver(k),
                    None => r is Ignore,
                }
            } else {
                r is Ignore
            },
        },
{
    match packet {
        NarrowWaistPacket::Request { hbfi } => {
            if hbfi.res == c.res && hbfi.app == c.echo && hbfi.m0d == c.echo && hbfi.fun == c.echo {
                match matched_kind(c, &hbfi.arg) {
                    Some(_) => EchoAction::Respond { hbfi: *hbfi, payload: echo_reply(hbfi.frm) },
                    None => EchoAction::Ignore,
                }
            } else {
                EchoAction::Ignore
            }
        },
        NarrowWaistPacket::Response { hbfi, .. } => {
            if hbfi.app == c.echo && hbfi.m0d == c.echo && hbfi.fun == c.echo {
                match matched_kind(c, &hbfi.arg) {
                    Some(k) => EchoAction::Deliver(k),
                    None => EchoAction::Ignore,
                }
            } else {
                EchoAction::Ignore
            }
        },
    }
}

/// The kind whose argument index is `arg`, trying the kinds in order.
pub fn matched_kind(c: &EchoChecks, arg: &BFI) -> (r: Option<EchoKind>)
    ensures
        r == spec_matched_kind(*c, *arg),
{
    if c.args[0] == *arg {
        Some(EchoKind::UnreliableUnordered)
    } else if c.args[1] == *arg {
        Some(EchoKind::UnreliableSequenced)
    } else if c.args[2] == *arg {
        Some(EchoKind::ReliableUnordered)
    } else if c.args[3] == *arg {
        Some(EchoKind::ReliableOrdered)
    } else if c.args[4] == *arg {
        Some(EchoKind::ReliableSequenced)
    } else {
        None
    }
}

/// The name of an echo of `kind` asked of `response_pid` by `request_pid`
/// (none for a cleartext echo): application, module and function "echo",
/// the kind's argument, frame 0.
pub fn echo_hbfi(
    kind: EchoKind,
    request_pid: PublicIdentityInterface,
    response_pid: PublicIdentity,
) -> (r: Result<HBFI, PacketError>)
    ensures
        r == Ok::<HBFI, PacketError>(
            HBFI {
                request_pid,
                response_pid,
                req: spec_interface_index(request_pid),
                res: spec_text_index(spec_identity_text(response_pid)),
                app: spec_bloom_filter_index(encode_utf8(echo_name())),
                m0d: spec_bloom_filter_index(encode_utf8(echo_name())),
                fun: spec_bloom_filter_index(encode_utf8(echo_name())),
                arg: spec_bloom_filter_index(encode_utf8(spec_kind_name(kind))),
                frm: 0,
            },
        ),
{
    HBFI::new(request_pid, response_pid, "echo", "echo", "echo", kind_name(kind))
}

/// The text read back from the replies, in order: the strings they hold,
/// joined; none when one of them holds no string.
pub open spec fn spec_ping_text(replies: Seq<Seq<u8>>) -> Option<Seq<char>>
    decreases replies.len(),
{
    if replies.len() == 0 {
        Some(Seq::empty())
    } else {
        match spec_ping_text(replies.drop_last()) {
            None => None,
            Some(front) => match spec_bincode_read_str(replies.last()) {
                None => None,
                Some(s) => Some(front + s),
            },
        }
    }
}

/// The byte sequences of a sequence of replies.
pub open spec fn reply_views(v: Seq<Vec<u8>>) -> Seq<Seq<u8>> {
    Seq::new(v.len(), |i: int| v[i]@)
}

/// Reads back the text of an echo: the strings the replies hold, joined in
/// order, or an error when a reply holds no string.
pub fn ping_text(replies: &Vec<Vec<u8>>) -> (r: Result<String, EchoError>)
    ensures
        match r {
            Ok(s) => spec_ping_text(reply_views(replies@)) == Some(s@),
            Err(e) => spec_ping_text(reply_views(replies@)) is None && e == EchoError::MalformedReply,
        },
{
    let mut out = String::from_str("");
    proof { reveal_strlit(""); }
    let mut i: usize = 0;
    while i < replies.len()
        invariant
            i <= replies@.len(),
            spec_ping_text(reply_views(replies@).take(i as int)) == Some(out@),
        decreases replies@.len() - i,
    {
        assert(reply_views(replies@).take(i + 1).drop_last() =~= reply_views(replies@).take(i as int));
        match bincode_deserialize_str(replies[i].as_slice()) {
            None => {
                proof { lemma_ping_text_prefix_none(reply_views(replies@), i + 1); }
                return Err(EchoError::MalformedReply);
            },
            Some(s) => {
                out.append(s.as_str());
            },
        }
        i = i + 1;
    }
    assert(reply_views(replies@).take(i as int) =~= reply_views(replies@));
    Ok(out)
}

/// A character takes at most four bytes of UTF-8.
pub proof fn lemma_encode_utf8_len(text: Seq<char>)
    ensures
        encode_utf8(text).len() <= 4 * text.len(),
    decreases text.len(),
{
    if text.len() > 0 {
        lemma_encode_utf8_len(text.drop_first());
    }
}

/// Bincode reads back the string it wrote.
pub proof fn lemma_bincode_str_roundtrip(text: Seq<char>)
    requires
        encode_utf8(text).len() < pow256(8),
    ensures
        spec_bincode_read_str(spec_bincode_str(encode_utf8(text))) == Some(text),
{
    let bytes = encode_utf8(text);
    let data = spec_bincode_str(bytes);
    lemma_le_roundtrip(bytes.len(), 8);
    assert(data.take(8) =~= le_bytes(bytes.len(), 8));
    assert(data.subrange(8, 8 + bytes.len() as int) =~= bytes);
    vstd::utf8::encode_utf8_valid_utf8(text);
    vstd::utf8::encode_utf8_decode_utf8(text);
}

/// The replies an echo responder gives for frames 0 to 3, read back in
/// order, spell "pong".
pub proof fn lemma_echo_spells_pong(replies: Seq<Seq<u8>>)
    requires
        replies.len() == 4,
        forall|i: int| 0 <= i < 4 ==> #[trigger] replies[i] == spec_bincode_str(
            encode_utf8(spec_echo_text(i as u64)),
        ),
    ensures
        spec_ping_text(replies) == Some("pong"@),
{
    reveal_strlit("p");
    reveal_strlit("o");
    reveal_strlit("n");
    reveal_strlit("g");
    reveal_strlit("pong");
    assert(pow256(8) > 8) by {
        reveal_with_fuel(pow256, 9);
    }
    assert forall|i: int| 0 <= i < 4 implies spec_bincode_read_str(#[trigger] replies[i]) == Some(
        spec_echo_text(i as u64),
    ) by {
        let t = spec_echo_text(i as u64);
        lemma_encode_utf8_len(t);
        lemma_bincode_str_roundtrip(t);
    }
    let r1 = replies.take(1);
    let r2 = replies.take(2);
    let r3 = replies.take(3);
    assert(r1.drop_last() =~= Seq::<Seq<u8>>::empty());
    assert(spec_ping_text(Seq::<Seq<u8>>::empty()) == Some(Seq::<char>::empty()));
    assert(r1.last() == replies[0]);
    assert(spec_bincode_read_str(replies[0]) == Some("p"@));
    assert(spec_bincode_read_str(replies[1]) == Some("o"@));
    assert(spec_bincode_read_str(replies[2]) == Some("n"@));
    assert(spec_bincode_read_str(replies[3]) == Some("g"@));
    assert(Seq::<char>::empty() + "p"@ =~= "p"@);
    assert(spec_ping_text(r1) == Some("p"@));
    assert(r2.drop_last() =~= r1);
    assert(r2.last() == replies[1]);
    assert(spec_ping_text(r2) == Some("p"@ + "o"@));
    assert(r3.drop_last() =~= r2);
    assert(r3.last() == replies[2]);
    assert(spec_ping_text(r3) == Some("p"@ + "o"@ + "n"@));
    assert(replies.drop_last() =~= r3);
    assert("p"@ + "o"@ + "n"@ + "g"@ =~= "pong"@);
}

/// Once a prefix of the replies cannot be read back, neither can the whole.
pub proof fn lemma_ping_text_prefix_none(replies: Seq<Seq<u8>>, k: int)
    requires
        0 <= k <= replies.len(),
        spec_ping_text(replies.take(k)) is None,
    ensures
        spec_ping_text(replies) is None,
    decreases replies.len() - k,
{
    if k < replies.len() {
        assert(replies.take(k + 1).drop_last() =~= replies.take(k));
        lemma_ping_text_prefix_none(replies, k + 1);
    } else {
        assert(replies.take(k) =~= replies);
    }
}


/// The argument index of the echo name of kind `k`.
pub open spec fn kind_index(k: EchoKind) -> BFI {
    spec_bloom_filter_index(encode_utf8(spec_kind_name(k)))
}

/// A responder's checks tell each kind of echo by its own name: the
/// argument of the echo name of kind `k` is matched to `k`, for every
/// responder, as long as no two kinds' names share an index.
pub proof fn law_each_kind_matches_itself(identity_text: Seq<char>, k: EchoKind)
    requires
        forall|a: EchoKind, b: EchoKind| a != b ==> kind_index(a) != kind_index(b),
    ensures
        spec_matched_kind(spec_echo_checks(identity_text), kind_index(k)) == Some(k),
{
    let c = spec_echo_checks(identity_text);
    assert(c.args[0] == kind_index(EchoKind::UnreliableUnordered));
    assert(c.args[1] == kind_index(EchoKind::UnreliableSequenced));
    assert(c.args[2] == kind_index(EchoKind::ReliableUnordered));
    assert(c.args[3] == kind_index(EchoKind::ReliableOrdered));
    assert(c.args[4] == kind_index(EchoKind::ReliableSequenced));
}

} // verus!
