//! The pacing of a request for a range of frames.
//!
//! A request keeps the frames still to ask for in a pending queue, ordered by
//! frame number. Each round it moves the first frames of the queue into a
//! congestion window, asks for them, and watches the responses that come
//! back. A window that is fully answered grows the next window by one frame
//! (additive increase); a window with unanswered frames shrinks it to one
//! frame (multiplicative decrease) and, depending on the reliability asked
//! for, puts the unanswered frames back into the queue. A round that ends
//! without every frame answered costs one retry.
use vstd::prelude::*;
use std::collections::BTreeSet;
use crate::protocols::frame_set::{
    elems, lemma_elems_finite, lemma_elems_push, lemma_sorted_of, lemma_sorted_of_finite,
    lemma_u64_ordered, sorted, sorted_frames, sorted_of,
};

verus! {

/// What a request promises about the frames it asks for.
#[derive(Clone, Copy, Debug, PartialEq, Eq, Structural)]
pub enum Reliability {
    /// Unanswered frames are never asked for again.
    UnreliableSequenced,
    /// Unanswered frames after the highest frame answered so far (the
    /// sequence head) are asked for again.
    ReliableSequenced(u64),
    /// Every unanswered frame is asked for again.
    ReliableOrdered,
}

/// How the congestion window changes after a round.
#[derive(Clone, Debug)]
pub enum Aimd {
    AdditiveIncrease,
    MultiplicativeDecrease { failed: BTreeSet<u64> },
}

/// The abstract change of the congestion window: an increase, or a decrease
/// with the frames to consider for asking again.
pub enum AimdModel {
    Increase,
    Decrease(Set<u64>),
}

impl View for Aimd {
    type V = AimdModel;

    open spec fn view(&self) -> AimdModel {
        match self {
            Aimd::AdditiveIncrease => AimdModel::Increase,
            Aimd::MultiplicativeDecrease { failed } => AimdModel::Decrease(failed@),
        }
    }
}

/// The state of a request: the queue of frames still to ask for, the frames
/// of the current window, the size of the next window, the retries left, the
/// reliability (with its sequence head) and the frames answered so far.
pub struct RequestModel {
    pub pending: Seq<u64>,
    pub window: Seq<u64>,
    pub window_size: u64,
    pub retries: u64,
    pub reliability: Reliability,
    pub received: Set<u64>,
}

/// The request state of a protocol asking for frames.
pub struct RequestWindow {
    pending: BTreeSet<u64>,
    window: BTreeSet<u64>,
    window_size: u64,
    retries: u64,
    reliability: Reliability,
    received: BTreeSet<u64>,
}

impl View for RequestWindow {
    type V = RequestModel;

    closed spec fn view(&self) -> RequestModel {
        RequestModel {
            pending: sorted_of(self.pending@),
            window: sorted_of(self.window@),
            window_size: self.window_size,
            retries: self.retries,
            reliability: self.reliability,
            received: self.received@,
        }
    }
}

/// The frames from `start` to `end`, both included, in order.
pub open spec fn frame_range(start: u64, end: u64) -> Seq<u64> {
    if start > end {
        Seq::empty()
    } else {
        Seq::new((end - start + 1) as nat, |i: int| (start + i) as u64)
    }
}

/// A request for the frames from `start` to `end` with `retries` retries.
pub open spec fn spec_new(start: u64, end: u64, retries: u64, reliability: Reliability) -> RequestModel {
    RequestModel {
        pending: frame_range(start, end),
        window: Seq::empty(),
        window_size: 1,
        retries,
        reliability,
        received: Set::empty(),
    }
}

/// The number of frames that move into the next window.
pub open spec fn window_take(m: RequestModel) -> nat {
    if (m.window_size as nat) < m.pending.len() {
        m.window_size as nat
    } else {
        m.pending.len()
    }
}

/// The first frames of the queue become the window.
pub open spec fn spec_fill(m: RequestModel) -> RequestModel {
    let k = window_take(m) as int;
    RequestModel { window: m.pending.take(k), pending: m.pending.skip(k), ..m }
}

/// The reliability after frame `frm` was answered: the sequence head moves
/// up to it.
pub open spec fn spec_advance(r: Reliability, frm: u64) -> Reliability {
    match r {
        Reliability::ReliableSequenced(head) => if frm > head {
            Reliability::ReliableSequenced(frm)
        } else {
            r
        },
        _ => r,
    }
}

/// The request after a response for frame `frm` arrived; `same_content`
/// tells whether the response is for the content this request asks for.
pub open spec fn spec_observe(m: RequestModel, frm: u64, same_content: bool) -> RequestModel {
    RequestModel {
        reliability: spec_advance(m.reliability, frm),
        received: if same_content {
            m.received.insert(frm)
        } else {
            m.received
        },
        ..m
    }
}

/// The frames of the window that have not been answered.
pub open spec fn spec_failed(m: RequestModel) -> Set<u64> {
    elems(m.window).difference(m.received)
}

/// Whether every frame of the window has been answered.
pub open spec fn window_answered(m: RequestModel) -> bool {
    spec_failed(m).is_empty()
}

/// How the window changes after the round: an increase when every frame was
/// answered, else a decrease that carries the unanswered frames (none for an
/// unreliable request).
pub open spec fn spec_outcome(m: RequestModel) -> AimdModel {
    if window_answered(m) {
        AimdModel::Increase
    } else {
        match m.reliability {
            Reliability::UnreliableSequenced => AimdModel::Decrease(Set::empty()),
            _ => AimdModel::Decrease(spec_failed(m)),
        }
    }
}

/// The frames of `f` after the sequence head `head`.
pub open spec fn after_head(f: Set<u64>, head: u64) -> Set<u64> {
    f.filter(|x: u64| x > head)
}

/// The request after the window changed by `a`.
pub open spec fn spec_process(m: RequestModel, a: AimdModel) -> RequestModel {
    match a {
        AimdModel::Increase => RequestModel { window_size: (m.window_size + 1) as u64, ..m },
        AimdModel::Decrease(failed) => RequestModel {
            window_size: 1,
            pending: match m.reliability {
                Reliability::ReliableOrdered => sorted_of(elems(m.pending).union(failed)),
                Reliability::ReliableSequenced(head) => sorted_of(
                    elems(m.pending).union(after_head(failed, head)),
                ),
                Reliability::UnreliableSequenced => m.pending,
            },
            ..m
        },
    }
}

/// The request after a round ended, answered in full or not.
pub open spec fn spec_end_round(m: RequestModel, answered: bool) -> RequestModel {
    if answered {
        m
    } else {
        RequestModel { retries: (m.retries - 1) as u64, ..m }
    }
}

/// Between rounds, every frame of `frames` is pending or answered.
pub open spec fn accounted_between_rounds(m: RequestModel, frames: Set<u64>) -> bool {
    forall|f: u64| #[trigger] frames.contains(f) ==> elems(m.pending).contains(f) || m.received.contains(f)
}

/// During a round, every frame of `frames` is pending, in the window or
/// answered.
pub open spec fn accounted_in_round(m: RequestModel, frames: Set<u64>) -> bool {
    forall|f: u64| #[trigger] frames.contains(f) ==> elems(m.pending).contains(f) || elems(
        m.window,
    ).contains(f) || m.received.contains(f)
}

/// A new request accounts for every frame it asks for.
pub proof fn lemma_new_accounts(start: u64, end: u64, retries: u64, reliability: Reliability)
    ensures
        accounted_between_rounds(
            spec_new(start, end, retries, reliability),
            elems(frame_range(start, end)),
        ),
{
}

/// Filling the window loses no frame: the window followed by the new queue
/// is the old queue.
pub proof fn lemma_fill_accounts(m: RequestModel, frames: Set<u64>)
    requires
        accounted_between_rounds(m, frames),
    ensures
        accounted_in_round(spec_fill(m), frames),
        spec_fill(m).window + spec_fill(m).pending == m.pending,
{
    let k = window_take(m) as int;
    let n = spec_fill(m);
    assert(n.window + n.pending =~= m.pending);
    assert forall|f: u64| #[trigger] frames.contains(f) implies elems(n.pending).contains(f) || elems(
        n.window,
    ).contains(f) || n.received.contains(f) by {
        if m.pending.contains(f) {
            let i = choose|i: int| 0 <= i < m.pending.len() && m.pending[i] == f;
            if i < k {
                assert(n.window[i] == f);
            } else {
                assert(n.pending[i - k] == f);
            }
        }
    }
}

/// A response never makes a frame unaccounted for.
pub proof fn lemma_observe_accounts(m: RequestModel, frames: Set<u64>, frm: u64, same_content: bool)
    requires
        accounted_in_round(m, frames),
    ensures
        accounted_in_round(spec_observe(m, frm, same_content), frames),
{
}

/// Ending a round never makes a frame unaccounted for.
pub proof fn lemma_end_round_accounts(m: RequestModel, frames: Set<u64>, answered: bool)
    requires
        accounted_in_round(m, frames),
    ensures
        accounted_in_round(spec_end_round(m, answered), frames),
{
}

/// A reliable ordered request loses no frame from one round to the next:
/// once the window changes by the round's outcome, every frame is pending
/// again or answered.
pub proof fn lemma_ordered_round_accounts(m: RequestModel, frames: Set<u64>)
    requires
        accounted_in_round(m, frames),
        m.reliability == Reliability::ReliableOrdered,
    ensures
        accounted_between_rounds(spec_process(m, spec_outcome(m)), frames),
{
    let n = spec_process(m, spec_outcome(m));
    lemma_elems_finite(m.pending);
    lemma_elems_finite(m.window);
    if !window_answered(m) {
        let x = elems(m.pending).union(spec_failed(m));
        assert(spec_failed(m).finite()) by {
            assert(spec_failed(m) =~= elems(m.window).difference(m.received));
        }
        lemma_sorted_of_finite(x);
        assert(elems(n.pending) == x);
    } else {
        assert forall|f: u64| #[trigger] frames.contains(f) implies elems(n.pending).contains(f)
            || n.received.contains(f) by {
            if elems(m.window).contains(f) && !m.received.contains(f) {
                assert(spec_failed(m).contains(f));
            }
        }
    }
}

/// A reliable sequenced request asks again for exactly the unanswered frames
/// of the window after its sequence head.
pub proof fn lemma_sequenced_round_requeues(m: RequestModel, head: u64)
    requires
        m.reliability == Reliability::ReliableSequenced(head),
        !window_answered(m),
    ensures
        elems(spec_process(m, spec_outcome(m)).pending) == elems(m.pending).union(
            after_head(spec_failed(m), head),
        ),
        spec_process(m, spec_outcome(m)).window_size == 1,
{
    lemma_elems_finite(m.pending);
    lemma_elems_finite(m.window);
    assert(spec_failed(m).finite()) by {
        assert(spec_failed(m) =~= elems(m.window).difference(m.received));
    }
    assert(after_head(spec_failed(m), head).finite()) by {
        assert(after_head(spec_failed(m), head).subset_of(spec_failed(m)));
        vstd::set_lib::lemma_len_subset(after_head(spec_failed(m), head), spec_failed(m));
    }
    lemma_sorted_of_finite(elems(m.pending).union(after_head(spec_failed(m), head)));
}

/// An unreliable request never asks again for a frame it failed to get.
pub proof fn lemma_unreliable_round_drops(m: RequestModel)
    requires
        m.reliability == Reliability::UnreliableSequenced,
    ensures
        spec_process(m, spec_outcome(m)).pending == m.pending,
{
}

/// A fully answered window grows the next one by a frame; any unanswered
/// frame shrinks it to one.
pub proof fn lemma_window_size_rule(m: RequestModel)
    requires
        m.window_size < u64::MAX,
    ensures
        window_answered(m) ==> spec_process(m, spec_outcome(m)).window_size == m.window_size + 1,
        !window_answered(m) ==> spec_process(m, spec_outcome(m)).window_size == 1,
{
}

/// The sequence head never moves back, and after a response it is at least
/// the frame answered.
pub proof fn lemma_sequence_head_monotone(r: Reliability, frm: u64)
    ensures
        r matches Reliability::ReliableSequenced(head) ==> spec_advance(r, frm) matches Reliability::ReliableSequenced(h2) && h2 >= head && h2 >= frm,
        !(r is ReliableSequenced) ==> spec_advance(r, frm) == r,
{
}

/// The frames of the finite set `x`, listed in increasing order, are the
/// frames of `x`; there are some exactly when `x` is not empty.
proof fn lemma_listed(x: Set<u64>)
    requires
        x.finite(),
    ensures
        sorted(sorted_of(x)),
        elems(sorted_of(x)) == x,
        sorted_of(x).len() > 0 <==> !x.is_empty(),
{
    lemma_sorted_of_finite(x);
    let s = sorted_of(x);
    if s.len() > 0 {
        assert(elems(s).contains(s[0]));
    }
    if !x.is_empty() {
        let y = x.choose();
        assert(elems(s).contains(y));
    }
}

/// The frames of `a` that are not in `b`.
fn missing(a: &BTreeSet<u64>, b: &BTreeSet<u64>) -> (r: BTreeSet<u64>)
    ensures
        r@ == a@.difference(b@),
        r@.finite(),
{
    proof {
        lemma_u64_ordered();
    }
    let v = sorted_frames(a);
    let mut r: BTreeSet<u64> = BTreeSet::new();
    let mut i: usize = 0;
    assert(elems(v@.take(0)) =~= Set::<u64>::empty());
    while i < v.len()
        invariant
            i <= v@.len(),
            r@ == elems(v@.take(i as int)).difference(b@),
        decreases v@.len() - i,
    {
        let x = v[i];
        if !b.contains(&x) {
            r.insert(x);
        }
        proof {
            assert(v@.take(i + 1) =~= v@.take(i as int).push(x));
            lemma_elems_push(v@.take(i as int), x);
        }
        assert(r@ =~= elems(v@.take(i + 1)).difference(b@));
        i = i + 1;
    }
    assert(v@.take(i as int) =~= v@);
    assert(r@.subset_of(a@));
    proof {
        vstd::set_lib::lemma_set_subset_finite(a@, r@);
    }
    r
}

impl RequestWindow {
    /// Whether the frame sets of the request are finite.
    pub closed spec fn wf(&self) -> bool {
        &&& self.pending@.finite()
        &&& self.window@.finite()
        &&& self.received@.finite()
    }

    /// A request for the frames from `start` to `end`, both included, with
    /// `retries` retries: every frame is pending and the first window holds
    /// one frame.
    pub fn new(start: u64, end: u64, retries: u64, reliability: Reliability) -> (r: Self)
        ensures
            r.wf(),
            r@ == spec_new(start, end, retries, reliability),
    {
        proof {
            lemma_u64_ordered();
        }
        let ghost frames = frame_range(start, end);
        let mut pending: BTreeSet<u64> = BTreeSet::new();
        if start <= end {
            let mut f: u64 = start;
            assert(frames.take(0) =~= Seq::<u64>::empty());
            assert(elems(Seq::<u64>::empty()) =~= Set::<u64>::empty());
            loop
                invariant_except_break
                    pending@ == elems(frames.take((f - start) as int)),
                invariant
                    start <= f <= end,
                    frames == frame_range(start, end),
                ensures
                    pending@ == elems(frames),
                decreases end - f,
            {
                proof {
                    assert(frames.take((f - start + 1) as int) =~= frames.take((f - start) as int).push(f));
                    lemma_elems_push(frames.take((f - start) as int), f);
                }
                pending.insert(f);
                if f == end {
                    assert(frames.take((f - start + 1) as int) =~= frames);
                    break;
                }
                f = f + 1;
            }
        } else {
            assert(elems(frames) =~= Set::<u64>::empty());
        }
        proof {
            assert(sorted(frames));
            lemma_sorted_of(frames);
            lemma_elems_finite(frames);
            assert(elems(Seq::<u64>::empty()) =~= Set::<u64>::empty());
            lemma_sorted_of(Seq::<u64>::empty());
        }
        RequestWindow {
            pending,
            window: BTreeSet::new(),
            window_size: 1,
            retries,
            reliability,
            received: BTreeSet::new(),
        }
    }

    /// The frames of the current window, to ask for in order.
    pub fn window(&self) -> (r: Vec<u64>)
        ensures
            r@ == self@.window,
    {
        sorted_frames(&self.window)
    }

    /// The size of the next window.
    pub fn window_size(&self) -> (r: u64)
        ensures
            r == self@.window_size,
    {
        self.window_size
    }

    /// The retries left.
    pub fn retries(&self) -> (r: u64)
        ensures
            r == self@.retries,
    {
        self.retries
    }

    /// Whether another round is due: retries are left and frames are pending.
    pub fn should_continue(&self) -> (r: bool)
        requires
            self.wf(),
        ensures
            r == (self@.retries > 0 && self@.pending.len() > 0),
    {
        proof {
            lemma_listed(self.pending@);
        }
        self.retries > 0 && !self.pending.is_empty()
    }

    /// Starts a round: the first frames of the queue, as many as the window
    /// size allows, leave the queue and become the window.
    pub fn fill_window(&mut self)
        requires
            old(self).wf(),
        ensures
            final(self).wf(),
            final(self)@ == spec_fill(old(self)@),
            final(self)@.window.len() == if (old(self)@.window_size as nat) < old(self)@.pending.len() {
                old(self)@.window_size as nat
            } else {
                old(self)@.pending.len()
            },
            final(self)@.window + final(self)@.pending == old(self)@.pending,
    {
        proof {
            law_fill_takes_the_first_frames(self@);
        }
        proof {
            lemma_u64_ordered();
        }
        let frames = sorted_frames(&self.pending);
        let k: usize = if self.window_size < frames.len() as u64 {
            self.window_size as usize
        } else {
            frames.len()
        };
        assert(k == window_take(self@));
        let mut win: BTreeSet<u64> = BTreeSet::new();
        let mut rest: BTreeSet<u64> = self.pending.clone();
        let mut i: usize = 0;
        assert(frames@.take(0) =~= Seq::<u64>::empty());
        assert(elems(Seq::<u64>::empty()) =~= Set::<u64>::empty());
        assert(frames@.skip(0) =~= frames@);
        while i < k
            invariant
                i <= k <= frames@.len(),
                sorted(frames@),
                win@ == elems(frames@.take(i as int)),
                rest@ == elems(frames@.skip(i as int)),
            decreases k - i,
        {
            let x = frames[i];
            proof {
                assert(frames@.take(i + 1) =~= frames@.take(i as int).push(x));
                lemma_elems_push(frames@.take(i as int), x);
                let s0 = frames@.skip(i as int);
                let s1 = frames@.skip(i + 1);
                assert forall|y: u64| elems(s1).contains(y) <==> elems(s0).remove(x).contains(y) by {
                    if s1.contains(y) {
                        let j = choose|j: int| 0 <= j < s1.len() && s1[j] == y;
                        assert(s0[j + 1] == y);
                        assert(s0[0] == x);
                    }
                    if s0.contains(y) && y != x {
                        let j = choose|j: int| 0 <= j < s0.len() && s0[j] == y;
                        assert(j != 0);
                        assert(s1[j - 1] == y);
                    }
                }
                assert(elems(frames@.skip(i + 1)) =~= elems(frames@.skip(i as int)).remove(x));
            }
            rest.remove(&x);
            win.insert(x);
            i = i + 1;
        }
        proof {
            let t = frames@.take(k as int);
            let d = frames@.skip(k as int);
            assert(sorted(t));
            assert forall|a: int, b: int| 0 <= a < b < d.len() implies d[a] < d[b] by {
                assert(d[a] == frames@[a + k]);
                assert(d[b] == frames@[b + k]);
            }
            lemma_sorted_of(t);
            lemma_sorted_of(d);
            lemma_elems_finite(t);
            lemma_elems_finite(d);
        }
        self.pending = rest;
        self.window = win;
    }

    /// Takes note of a response for frame `frm`: the sequence head moves up
    /// to it, and where the response is for this request's content the frame
    /// counts as answered. Returns whether the window is now fully answered.
    pub fn observe_response(&mut self, frm: u64, same_content: bool) -> (r: bool)
        requires
            old(self).wf(),
        ensures
            final(self).wf(),
            final(self)@ == spec_observe(old(self)@, frm, same_content),
            r == (same_content && window_answered(final(self)@)),
    {
        proof {
            lemma_u64_ordered();
        }
        match self.reliability {
            Reliability::ReliableSequenced(head) => {
                if frm > head {
                    self.reliability = Reliability::ReliableSequenced(frm);
                }
            },
            _ => {},
        }
        if same_content {
            self.received.insert(frm);
            let outstanding = missing(&self.window, &self.received);
            proof {
                lemma_listed(self.window@);
                assert(spec_failed(self@) == outstanding@);
            }
            outstanding.is_empty()
        } else {
            false
        }
    }

    /// Ends a round: one retry is spent unless every frame of the window was
    /// answered in time.
    pub fn end_round(&mut self, answered: bool)
        requires
            old(self).wf(),
            old(self)@.retries > 0,
        ensures
            final(self).wf(),
            final(self)@ == spec_end_round(old(self)@, answered),
    {
        if !answered {
            self.retries = self.retries - 1;
        }
    }

    /// How the window changes after the round: an increase when every frame
    /// of the window was answered, else a decrease with the unanswered
    /// frames (none for an unreliable request).
    pub fn window_outcome(&self) -> (r: Aimd)
        requires
            self.wf(),
        ensures
            r@ == spec_outcome(self@),
    {
        let failed = missing(&self.window, &self.received);
        proof {
            lemma_listed(self.window@);
            assert(spec_failed(self@) == failed@);
        }
        if !failed.is_empty() {
            match self.reliability {
                Reliability::UnreliableSequenced => Aimd::MultiplicativeDecrease { failed: BTreeSet::new() },
                _ => Aimd::MultiplicativeDecrease { failed },
            }
        } else {
            Aimd::AdditiveIncrease
        }
    }

    /// Changes the window by `aimd`: an increase grows it by one frame; a
    /// decrease shrinks it to one frame and, for a reliable request, puts the
    /// failed frames back into the queue (for a sequenced one, only those
    /// after the sequence head).
    pub fn process_aimd(&mut self, aimd: Aimd)
        requires
            old(self).wf(),
            aimd is AdditiveIncrease ==> old(self)@.window_size < u64::MAX,
        ensures
            final(self).wf(),
            final(self)@ == spec_process(old(self)@, aimd@),
    {
        proof {
            lemma_u64_ordered();
        }
        match aimd {
            Aimd::AdditiveIncrease => {
                self.window_size = self.window_size + 1;
            },
            Aimd::MultiplicativeDecrease { failed } => {
                self.window_size = 1;
                let reliability = self.reliability;
                match reliability {
                    Reliability::UnreliableSequenced => {},
                    _ => {
                        let frames = sorted_frames(&failed);
                        let ghost start = self.pending@;
                        let ghost keep: Set<u64> = match reliability {
                            Reliability::ReliableSequenced(head) => after_head(failed@, head),
                            _ => failed@,
                        };
                        let mut pending: BTreeSet<u64> = self.pending.clone();
                        let mut i: usize = 0;
                        assert(elems(frames@.take(0)) =~= Set::<u64>::empty());
                        assert(pending@ =~= start.union(keep.intersect(elems(frames@.take(0)))));
                        while i < frames.len()
                            invariant
                                i <= frames@.len(),
                                keep == match reliability {
                                    Reliability::ReliableSequenced(head) => after_head(failed@, head),
                                    _ => failed@,
                                },
                                elems(frames@) == failed@,
                                pending@ == start.union(keep.intersect(elems(frames@.take(i as int)))),
                            decreases frames@.len() - i,
                        {
                            let x = frames[i];
                            assert(elems(frames@).contains(frames@[i as int]));
                            let wanted = match reliability {
                                Reliability::ReliableSequenced(head) => x > head,
                                _ => true,
                            };
                            if wanted {
                                pending.insert(x);
                            }
                            assert(frames@.take(i + 1) =~= frames@.take(i as int).push(x));
                            proof { lemma_elems_push(frames@.take(i as int), x); }
                            assert(pending@ =~= start.union(keep.intersect(elems(frames@.take(i + 1)))));
                            i = i + 1;
                        }
                        assert(frames@.take(i as int) =~= frames@);
                        assert(keep.intersect(failed@) =~= keep);
                        proof {
                            lemma_listed(start);
                            assert(keep.subset_of(failed@));
                            vstd::set_lib::lemma_set_subset_finite(failed@, keep);
                        }
                        self.pending = pending;
                    },
                }
            },
        }
    }

    /// The answered frames from `start` to `end`, in order.
    pub fn reconstruct(&self, start: u64, end: u64) -> (r: Vec<u64>)
        requires
            self.wf(),
            start <= end,
        ensures
            sorted(r@),
            elems(r@) == self@.received.filter(|x: u64| start <= x <= end),
    {
        let v = sorted_frames(&self.received);
        let mut r: Vec<u64> = Vec::new();
        let mut i: usize = 0;
        while i < v.len()
            invariant
                i <= v@.len(),
                sorted(v@),
                sorted(r@),
                forall|k: int| 0 <= k < r@.len() ==> exists|j: int| 0 <= j < i && v@[j] == #[trigger] r@[k],
                forall|k: int| 0 <= k < r@.len() ==> start <= #[trigger] r@[k] <= end,
                forall|j: int| 0 <= j < i && start <= #[trigger] v@[j] <= end ==> r@.contains(v@[j]),
            decreases v@.len() - i,
        {
            let x = v[i];
            let ghost before = r@;
            if start <= x && x <= end {
                proof {
                    assert forall|k: int| 0 <= k < r@.len() implies r@[k] < x by {
                        let j = choose|j: int| 0 <= j < i && v@[j] == r@[k];
                    }
                }
                r.push(x);
                proof {
                    assert forall|k: int| 0 <= k < r@.len() implies exists|j: int| 0 <= j < i + 1 && v@[j] == #[trigger] r@[k] by {
                        if k < before.len() {
                            let j = choose|j: int| 0 <= j < i && v@[j] == before[k];
                            assert(r@[k] == before[k]);
                        } else {
                            assert(v@[i as int] == r@[k]);
                        }
                    }
                    assert forall|j: int| 0 <= j < i + 1 && start <= #[trigger] v@[j] <= end implies r@.contains(v@[j]) by {
                        if j < i {
                            let k = choose|k: int| 0 <= k < before.len() && before[k] == v@[j];
                            assert(r@[k] == v@[j]);
                        } else {
                            assert(r@[r@.len() - 1] == v@[j]);
                        }
                    }
                }
            }
            i = i + 1;
        }
        assert forall|y: u64| elems(r@).contains(y) <==> v@.contains(y) && start <= y <= end by {
            if v@.contains(y) {
                assert(elems(v@).contains(y));
            }
        }
        assert forall|y: u64| elems(r@).contains(y) <==> self@.received.filter(|x: u64| start <= x <= end).contains(y) by {
            if r@.contains(y) {
                let k = choose|k: int| 0 <= k < r@.len() && r@[k] == y;
                let j = choose|j: int| 0 <= j < i && v@[j] == r@[k];
                assert(v@.contains(y));
            }
            if v@.contains(y) && start <= y <= end {
                let j = choose|j: int| 0 <= j < v@.len() && v@[j] == y;
            }
        }
        assert(elems(r@) =~= self@.received.filter(|x: u64| start <= x <= end));
        r
    }
}


/// Filling the window takes the first frames of the queue, as many as the
/// window size allows and no fewer: the window and the rest of the queue
/// are the queue, in order, and the window is never empty while frames are
/// pending and the window size is at least one.
pub proof fn law_fill_takes_the_first_frames(m: RequestModel)
    ensures
        spec_fill(m).window.len() == if (m.window_size as nat) < m.pending.len() {
            m.window_size as nat
        } else {
            m.pending.len()
        },
        spec_fill(m).window + spec_fill(m).pending == m.pending,
        m.window_size >= 1 && m.pending.len() >= 1 ==> spec_fill(m).window.len() >= 1,
{
    let k = window_take(m) as int;
    assert(m.pending.take(k) + m.pending.skip(k) =~= m.pending);
}

} // verus!
