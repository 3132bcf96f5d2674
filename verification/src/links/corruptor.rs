//! A link that damages the frames it carries, in one of four ways, to show
//! how the protocols above it cope.
//!
//! Whatever the kind, the first frame passes untouched and the second frame
//! is the one damaged: its bytes 4 to 7 zeroed (`Integrity`), held back until
//! the third frame comes and sent just before it (`Order`), or dropped
//! (`Presence`). Every frame after that passes untouched.
use vstd::prelude::*;

verus! {

/// The damage a corrupting link does.
#[derive(Clone, Copy, Debug, PartialEq, Eq, Structural)]
pub enum Corruption {
    Immune,
    Integrity,
    Order,
    Presence,
}

/// What a corrupting link remembers of the frames it has carried.
#[derive(Clone, Debug)]
pub struct CorruptionState {
    pub integrity_skipped_first: bool,
    pub integrity_corrupted: bool,
    pub order_skipped_first: bool,
    pub order_corrupted: bool,
    pub memory_sent: bool,
    pub presence_skipped_first: bool,
    pub presence_corrupted: bool,
    pub memory: Vec<u8>,
}

/// The abstract state: the flags and the frame held back.
pub struct CorruptionModel {
    pub integrity_skipped_first: bool,
    pub integrity_corrupted: bool,
    pub order_skipped_first: bool,
    pub order_corrupted: bool,
    pub memory_sent: bool,
    pub presence_skipped_first: bool,
    pub presence_corrupted: bool,
    pub memory: Seq<u8>,
}

impl View for CorruptionState {
    type V = CorruptionModel;

    open spec fn view(&self) -> CorruptionModel {
        CorruptionModel {
            integrity_skipped_first: self.integrity_skipped_first,
            integrity_corrupted: self.integrity_corrupted,
            order_skipped_first: self.order_skipped_first,
            order_corrupted: self.order_corrupted,
            memory_sent: self.memory_sent,
            presence_skipped_first: self.presence_skipped_first,
            presence_corrupted: self.presence_corrupted,
            memory: self.memory@,
        }
    }
}

/// The state of a link that has carried nothing yet.
pub open spec fn initial_model() -> CorruptionModel {
    CorruptionModel {
        integrity_skipped_first: false,
        integrity_corrupted: false,
        order_skipped_first: false,
        order_corrupted: false,
        memory_sent: false,
        presence_skipped_first: false,
        presence_corrupted: false,
        memory: Seq::empty(),
    }
}

/// `frame` with its bytes 4 to 7 set to zero.
pub open spec fn zero_integrity_bytes(frame: Seq<u8>) -> Seq<u8> {
    frame.update(4, 0).update(5, 0).update(6, 0).update(7, 0)
}

/// Whether the next frame is the one whose bytes get zeroed.
pub open spec fn damages_next(m: CorruptionModel, c: Corruption) -> bool {
    c == Corruption::Integrity && m.integrity_skipped_first && !m.integrity_corrupted
}

/// What the link does with `frame`: its next state and the frames it sends,
/// in order, to every peer.
pub open spec fn spec_step(m: CorruptionModel, c: Corruption, frame: Seq<u8>) -> (
    CorruptionModel,
    Seq<Seq<u8>>,
) {
    match c {
        Corruption::Immune => (m, seq![frame]),
        Corruption::Integrity => if !m.integrity_skipped_first {
            (CorruptionModel { integrity_skipped_first: true, ..m }, seq![frame])
        } else if !m.integrity_corrupted {
            (CorruptionModel { integrity_corrupted: true, ..m }, seq![zero_integrity_bytes(frame)])
        } else {
            (m, seq![frame])
        },
        Corruption::Order => if !m.order_skipped_first {
            (CorruptionModel { order_skipped_first: true, ..m }, seq![frame])
        } else if !m.order_corrupted {
            (CorruptionModel { order_corrupted: true, memory: frame, ..m }, Seq::empty())
        } else if !m.memory_sent {
            (CorruptionModel { memory_sent: true, ..m }, seq![m.memory, frame])
        } else {
            (m, seq![frame])
        },
        Corruption::Presence => if !m.presence_skipped_first {
            (CorruptionModel { presence_skipped_first: true, ..m }, seq![frame])
        } else if !m.presence_corrupted {
            (CorruptionModel { presence_corrupted: true, ..m }, Seq::empty())
        } else {
            (m, seq![frame])
        },
    }
}

/// The state after the link has carried `frames`.
pub open spec fn spec_state_after(m: CorruptionModel, c: Corruption, frames: Seq<Seq<u8>>) -> CorruptionModel
    decreases frames.len(),
{
    if frames.len() == 0 {
        m
    } else {
        spec_step(spec_state_after(m, c, frames.drop_last()), c, frames.last()).0
    }
}

/// Every frame the link sends, in order, while it carries `frames`.
pub open spec fn spec_sent(m: CorruptionModel, c: Corruption, frames: Seq<Seq<u8>>) -> Seq<Seq<u8>>
    decreases frames.len(),
{
    if frames.len() == 0 {
        Seq::empty()
    } else {
        spec_sent(m, c, frames.drop_last()) + spec_step(
            spec_state_after(m, c, frames.drop_last()),
            c,
            frames.last(),
        ).1
    }
}

/// The byte sequences of a sequence of frames.
pub open spec fn frame_views(v: Seq<Vec<u8>>) -> Seq<Seq<u8>> {
    Seq::new(v.len(), |i: int| v[i]@)
}

/// An immune link sends every frame it carries, unchanged and in order.
pub proof fn lemma_immune_passes_all(frames: Seq<Seq<u8>>)
    ensures
        spec_state_after(initial_model(), Corruption::Immune, frames) == initial_model(),
        spec_sent(initial_model(), Corruption::Immune, frames) == frames,
    decreases frames.len(),
{
    if frames.len() > 0 {
        lemma_immune_passes_all(frames.drop_last());
        assert(frames.drop_last().push(frames.last()) =~= frames);
    }
}

/// A link that damages presence drops the second frame it carries and sends
/// every other frame unchanged and in order.
pub proof fn lemma_presence_drops_second(frames: Seq<Seq<u8>>)
    ensures
        spec_state_after(initial_model(), Corruption::Presence, frames) == (CorruptionModel {
            presence_skipped_first: frames.len() >= 1,
            presence_corrupted: frames.len() >= 2,
            ..initial_model()
        }),
        spec_sent(initial_model(), Corruption::Presence, frames) == if frames.len() < 2 {
            frames
        } else {
            frames.remove(1)
        },
    decreases frames.len(),
{
    if frames.len() > 0 {
        let front = frames.drop_last();
        lemma_presence_drops_second(front);
        if frames.len() == 1 {
            assert(front =~= Seq::<Seq<u8>>::empty());
            assert(Seq::<Seq<u8>>::empty() + seq![frames.last()] =~= frames);
        } else if frames.len() == 2 {
            assert(front.len() == 1);
            assert(front + Seq::<Seq<u8>>::empty() =~= frames.remove(1));
        } else {
            assert(front.remove(1).push(frames.last()) =~= frames.remove(1));
        }
    }
}

/// A link that damages integrity zeroes bytes 4 to 7 of the second frame it
/// carries and sends every frame, in order.
pub proof fn lemma_integrity_damages_second(frames: Seq<Seq<u8>>)
    ensures
        spec_state_after(initial_model(), Corruption::Integrity, frames) == (CorruptionModel {
            integrity_skipped_first: frames.len() >= 1,
            integrity_corrupted: frames.len() >= 2,
            ..initial_model()
        }),
        spec_sent(initial_model(), Corruption::Integrity, frames) == if frames.len() < 2 {
            frames
        } else {
            frames.update(1, zero_integrity_bytes(frames[1]))
        },
    decreases frames.len(),
{
    if frames.len() > 0 {
        let front = frames.drop_last();
        lemma_integrity_damages_second(front);
        if frames.len() == 1 {
            assert(Seq::<Seq<u8>>::empty() + seq![frames.last()] =~= frames);
        } else if frames.len() == 2 {
            assert(front + seq![zero_integrity_bytes(frames.last())] =~= frames.update(
                1,
                zero_integrity_bytes(frames[1]),
            ));
        } else {
            assert(front.update(1, zero_integrity_bytes(front[1])).push(frames.last())
                =~= frames.update(1, zero_integrity_bytes(frames[1])));
        }
    }
}

/// A link that damages order holds the second frame back until the third
/// comes: once three frames have been carried, every frame has been sent,
/// unchanged and in order.
pub proof fn lemma_order_delays_second(frames: Seq<Seq<u8>>)
    ensures
        spec_state_after(initial_model(), Corruption::Order, frames) == (CorruptionModel {
            order_skipped_first: frames.len() >= 1,
            order_corrupted: frames.len() >= 2,
            memory_sent: frames.len() >= 3,
            memory: if frames.len() >= 2 {
                frames[1]
            } else {
                Seq::empty()
            },
            ..initial_model()
        }),
        spec_sent(initial_model(), Corruption::Order, frames) == if frames.len() == 2 {
            frames.take(1)
        } else {
            frames
        },
    decreases frames.len(),
{
    if frames.len() > 0 {
        let front = frames.drop_last();
        lemma_order_delays_second(front);
        if frames.len() == 1 {
            assert(Seq::<Seq<u8>>::empty() + seq![frames.last()] =~= frames);
        } else if frames.len() == 2 {
            assert(front + Seq::<Seq<u8>>::empty() =~= frames.take(1));
        } else if frames.len() == 3 {
            assert(front.take(1) + seq![frames[1], frames.last()] =~= frames);
        } else {
            assert(front.push(frames.last()) =~= frames);
        }
    }
}

impl CorruptionState {
    /// A link that has carried nothing yet.
    pub fn new() -> (r: Self)
        ensures
            r@ == initial_model(),
    {
        CorruptionState {
            integrity_skipped_first: false,
            integrity_corrupted: false,
            order_skipped_first: false,
            order_corrupted: false,
            memory_sent: false,
            presence_skipped_first: false,
            presence_corrupted: false,
            memory: Vec::new(),
        }
    }

    /// Carries `frame` under `corruption`: returns the frames to send, in
    /// order, to every peer. The frame to damage must have eight bytes.
    pub fn step(&mut self, corruption: Corruption, frame: Vec<u8>) -> (r: Vec<Vec<u8>>)
        requires
            damages_next(old(self)@, corruption) ==> frame@.len() >= 8,
        ensures
            final(self)@ == spec_step(old(self)@, corruption, frame@).0,
            frame_views(r@) == spec_step(old(self)@, corruption, frame@).1,
    {
        let ghost f = frame@;
        let mut out: Vec<Vec<u8>> = Vec::new();
        match corruption {
            Corruption::Immune => {
                out.push(frame);
            },
            Corruption::Integrity => {
                if !self.integrity_skipped_first {
                    self.integrity_skipped_first = true;
                    out.push(frame);
                } else if !self.integrity_corrupted {
                    self.integrity_corrupted = true;
                    let mut damaged = frame;
                    let mut i: usize = 4;
                    while i < 8
                        invariant
                            4 <= i <= 8,
                            damaged@.len() == f.len(),
                            f.len() >= 8,
                            forall|j: int| 0 <= j < damaged@.len() ==> #[trigger] damaged@[j] == if 4 <= j < i { 0u8 } else { f[j] },
                        decreases 8 - i,
                    {
                        damaged.set(i, 0u8);
                        i = i + 1;
                    }
                    assert(damaged@ =~= zero_integrity_bytes(f));
                    out.push(damaged);
                } else {
                    out.push(frame);
                }
            },
            Corruption::Order => {
                if !self.order_skipped_first {
                    self.order_skipped_first = true;
                    out.push(frame);
                } else if !self.order_corrupted {
                    self.memory = frame;
                    self.order_corrupted = true;
                } else if !self.memory_sent {
                    self.memory_sent = true;
                    let held = self.memory.clone();
                    assert(held@ =~= self.memory@);
                    out.push(held);
                    out.push(frame);
                } else {
                    out.push(frame);
                }
            },
            Corruption::Presence => {
                if !self.presence_skipped_first {
                    self.presence_skipped_first = true;
                    out.push(frame);
                } else if !self.presence_corrupted {
                    self.presence_corrupted = true;
                } else {
                    out.push(frame);
                }
            },
        }
        assert(frame_views(out@) =~= spec_step(old(self)@, corruption, f).1);
        out
    }
}

} // verus!
