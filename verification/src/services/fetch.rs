//! Fetching the frames of a range, one after the other: each frame is looked
//! up in the store of responses, and asked for over the link when it is not
//! there; the payloads of the responses are joined in frame order.
use vstd::prelude::*;
use crate::packets::data::{spec_data_length, Data};
use crate::packets::hbfi::HBFI;
use crate::packets::narrow_waist::NarrowWaistPacket;
use crate::common::FRAGMENT_SIZE;
use crate::protocols::file_packing::joined;

verus! {

/// The payload of a fragment: its leading bytes, as many as it announces.
pub open spec fn spec_payload(d: Data) -> Seq<u8> {
    d.0@.subrange(0, spec_data_length(d) as int)
}

/// Whether a packet can be taken in: a response must announce a payload
/// that fits in its fragment.
pub open spec fn absorbable(p: NarrowWaistPacket) -> bool {
    match p {
        NarrowWaistPacket::Response { data, .. } => spec_data_length(data) <= FRAGMENT_SIZE,
        NarrowWaistPacket::Request { .. } => true,
    }
}

/// The state of a fetch: the name of the content, the frame being fetched,
/// the last frame, whether every frame was fetched, and the payload so far.
pub struct FetchModel {
    pub hbfi: HBFI,
    pub counter: u64,
    pub end: u64,
    pub finished: bool,
    pub collected: Seq<u8>,
}

/// A fetch of the frames of a range of content.
pub struct Fetch {
    hbfi: HBFI,
    counter: u64,
    end: u64,
    finished: bool,
    collected: Vec<u8>,
}

/// What to do after the store was asked for the current frame.
#[derive(Clone, Copy, Debug)]
pub enum FetchStep {
    /// The frame was taken in; go on with the next one.
    Continue,
    /// The store does not hold the frame: ask for it over the link and
    /// wait for it to arrive.
    Await(HBFI),
}

impl View for Fetch {
    type V = FetchModel;

    closed spec fn view(&self) -> FetchModel {
        FetchModel {
            hbfi: self.hbfi,
            counter: self.counter,
            end: self.end,
            finished: self.finished,
            collected: self.collected@,
        }
    }
}

/// The fetch after a frame was taken in: a response adds its payload, and
/// the next frame is due (none after the last).
pub open spec fn spec_take_in(m: FetchModel, p: NarrowWaistPacket) -> FetchModel {
    let collected = match p {
        NarrowWaistPacket::Response { data, .. } => m.collected + spec_payload(data),
        NarrowWaistPacket::Request { .. } => m.collected,
    };
    if m.counter == m.end {
        FetchModel { finished: true, collected, ..m }
    } else {
        FetchModel { counter: (m.counter + 1) as u64, collected, ..m }
    }
}

impl Fetch {
    /// Whether the frame being fetched lies in the range.
    pub closed spec fn wf(&self) -> bool {
        !self.finished ==> self.counter <= self.end
    }

    /// A fetch of the frames `start` to `end` of the content `hbfi`.
    pub fn new(hbfi: HBFI, start: u64, end: u64) -> (r: Self)
        ensures
            r.wf(),
            r@ == (FetchModel {
                hbfi,
                counter: start,
                end,
                finished: start > end,
                collected: Seq::empty(),
            }),
    {
        Fetch { hbfi, counter: start, end, finished: start > end, collected: Vec::new() }
    }

    /// The name of the frame being fetched; none once every frame was.
    pub fn frame(&self) -> (r: Option<HBFI>)
        ensures
            self@.finished ==> r is None,
            !self@.finished ==> r == Some(HBFI { frm: self@.counter, ..self@.hbfi }),
    {
        if self.finished {
            None
        } else {
            Some(self.hbfi.offset(self.counter))
        }
    }

    /// The payload fetched so far.
    pub fn collected(&self) -> (r: Vec<u8>)
        ensures
            r@ == self@.collected,
    {
        self.collected.clone()
    }

    /// Takes in a packet for the current frame and moves to the next.
    fn take_in(&mut self, packet: &NarrowWaistPacket)
        requires
            old(self).wf(),
            !old(self)@.finished,
            absorbable(*packet),
        ensures
            final(self).wf(),
            final(self)@ == spec_take_in(old(self)@, *packet),
    {
        match packet {
            NarrowWaistPacket::Response { data, .. } => {
                let mut payload = data.data().unwrap();
                self.collected.append(&mut payload);
            },
            NarrowWaistPacket::Request { .. } => {},
        }
        if self.counter == self.end {
            self.finished = true;
        } else {
            self.counter = self.counter + 1;
        }
    }

    /// What the store held for the current frame: a response adds its
    /// payload, a request is passed over, and nothing means the frame must
    /// be asked for over the link.
    pub fn on_lookup(&mut self, stored: Option<NarrowWaistPacket>) -> (r: FetchStep)
        requires
            old(self).wf(),
            !old(self)@.finished,
            stored matches Some(p) ==> absorbable(p),
        ensures
            final(self).wf(),
            match stored {
                Some(p) => r is Continue && final(self)@ == spec_take_in(old(self)@, p),
                None => r == FetchStep::Await(HBFI { frm: old(self)@.counter, ..old(self)@.hbfi })
                    && final(self)@ == old(self)@,
            },
    {
        match stored {
            Some(p) => {
                self.take_in(&p);
                FetchStep::Continue
            },
            None => FetchStep::Await(self.hbfi.offset(self.counter)),
        }
    }

    /// The packet that arrived for the current frame after it was asked
    /// for.
    pub fn on_arrival(&mut self, packet: NarrowWaistPacket)
        requires
            old(self).wf(),
            !old(self)@.finished,
            absorbable(packet),
        ensures
            final(self).wf(),
            final(self)@ == spec_take_in(old(self)@, packet),
    {
        self.take_in(&packet);
    }
}

/// The fetch after taking in `ps`, one packet after the other.
pub open spec fn spec_take_in_all(m: FetchModel, ps: Seq<NarrowWaistPacket>) -> FetchModel
    decreases ps.len(),
{
    if ps.len() == 0 {
        m
    } else {
        spec_take_in(spec_take_in_all(m, ps.drop_last()), ps.last())
    }
}

/// What each packet of `ps` adds to a fetch: a response its payload, a
/// request nothing.
pub open spec fn contributions(ps: Seq<NarrowWaistPacket>) -> Seq<Seq<u8>> {
    Seq::new(
        ps.len(),
        |i: int|
            match ps[i] {
                NarrowWaistPacket::Response { data, .. } => spec_payload(data),
                NarrowWaistPacket::Request { .. } => Seq::empty(),
            },
    )
}

/// A fetch that takes in packets, one after the other, holds what it held
/// before followed by what they carry, joined in order.
pub proof fn lemma_fetch_joins(m: FetchModel, ps: Seq<NarrowWaistPacket>)
    ensures
        spec_take_in_all(m, ps).collected == m.collected + joined(contributions(ps)),
    decreases ps.len(),
{
    if ps.len() == 0 {
        assert(m.collected + Seq::<u8>::empty() =~= m.collected);
    } else {
        lemma_fetch_joins(m, ps.drop_last());
        assert(contributions(ps).drop_last() =~= contributions(ps.drop_last()));
        let before = spec_take_in_all(m, ps.drop_last()).collected;
        let last = contributions(ps).last();
        assert(before + last =~= m.collected + (joined(contributions(ps.drop_last())) + last));
    }
}

/// A file published in chunks and fetched back frame by frame gives its
/// bytes: when the responses taken in carry, in frame order, chunks that
/// join into the file's bytes, a fetch that started with nothing holds
/// those bytes.
pub proof fn lemma_published_file_fetched_back(
    bytes: Seq<u8>,
    chunks: Seq<Seq<u8>>,
    m: FetchModel,
    ps: Seq<NarrowWaistPacket>,
)
    requires
        joined(chunks) == bytes,
        m.collected.len() == 0,
        ps.len() == chunks.len(),
        forall|k: int|
            0 <= k < ps.len() ==> ((#[trigger] ps[k]) matches NarrowWaistPacket::Response { data, .. }
                && spec_payload(data) == chunks[k]),
    ensures
        spec_take_in_all(m, ps).collected == bytes,
{
    lemma_fetch_joins(m, ps);
    assert forall|k: int| 0 <= k < chunks.len() implies contributions(ps)[k] == chunks[k] by {
        assert(ps[k] matches NarrowWaistPacket::Response { data, .. } && spec_payload(data) == chunks[k]);
    }
    assert(contributions(ps) =~= chunks);
    assert(m.collected + bytes =~= bytes);
}


/// Taking in a frame before the last moves on to the next frame and leaves
/// the fetch unfinished; taking in the last frame finishes it. Either way
/// the frame's payload is added after what was collected.
pub proof fn law_take_in_moves_one_frame(m: FetchModel, p: NarrowWaistPacket)
    requires
        !m.finished,
        m.counter <= m.end,
    ensures
        m.counter < m.end ==> !spec_take_in(m, p).finished && spec_take_in(m, p).counter == m.counter + 1,
        m.counter == m.end ==> spec_take_in(m, p).finished,
        spec_take_in(m, p).collected == m.collected + contributions(seq![p])[0],
        spec_take_in(m, p).hbfi == m.hbfi && spec_take_in(m, p).end == m.end,
{
}

/// A fetch of the frames `start` to `end` takes in every one of them: after
/// fewer packets than frames it is unfinished with the next frame due, and
/// it is finished once it has taken in one packet per frame.
pub proof fn law_fetch_takes_every_frame(hbfi: HBFI, start: u64, end: u64, ps: Seq<NarrowWaistPacket>)
    requires
        start <= end,
        ps.len() <= end - start + 1,
    ensures
        ({
            let m = spec_take_in_all(
                FetchModel { hbfi, counter: start, end, finished: false, collected: Seq::empty() },
                ps,
            );
            &&& m.end == end
            &&& ps.len() <= end - start ==> !m.finished && m.counter == start + ps.len()
            &&& ps.len() == end - start + 1 ==> m.finished
        }),
    decreases ps.len(),
{
    if ps.len() > 0 {
        law_fetch_takes_every_frame(hbfi, start, end, ps.drop_last());
    }
}

} // verus!
