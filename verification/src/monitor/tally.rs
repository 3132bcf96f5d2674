//! Checking what a network logged against what it was expected to log: each
//! kind of event with its label is expected a number of times, every logged
//! event counts one off, and at the end every count must have reached zero.
use vstd::prelude::*;

verus! {

/// An event a network logs, with the label of the node or link it concerns.
#[derive(Clone, Debug)]
pub enum LogEntry {
    Register { label: String },
    Message { label: String },
    FoundResponseUpstream { label: String },
    ResponseArrivedDownstream { label: String },
    ForwardResponseDownstream { label: String },
    ForwardRequestUpstream { label: String },
    End,
}

/// What identifies an event: its kind (0 to 5) and its label.
pub open spec fn entry_key(e: LogEntry) -> (int, Seq<char>) {
    match e {
        LogEntry::Register { label } => (0, label@),
        LogEntry::Message { label } => (1, label@),
        LogEntry::FoundResponseUpstream { label } => (2, label@),
        LogEntry::ResponseArrivedDownstream { label } => (3, label@),
        LogEntry::ForwardResponseDownstream { label } => (4, label@),
        LogEntry::ForwardRequestUpstream { label } => (5, label@),
        LogEntry::End => (6, Seq::empty()),
    }
}

/// The kind of an event and its label, as stored; none for the end.
fn entry_parts(e: &LogEntry) -> (r: Option<(u8, &String)>)
    ensures
        *e is End <==> r is None,
        r matches Some((k, l)) ==> k as int == entry_key(*e).0 && l@ == entry_key(*e).1,
{
    match e {
        LogEntry::Register { label } => Some((0, label)),
        LogEntry::Message { label } => Some((1, label)),
        LogEntry::FoundResponseUpstream { label } => Some((2, label)),
        LogEntry::ResponseArrivedDownstream { label } => Some((3, label)),
        LogEntry::ForwardResponseDownstream { label } => Some((4, label)),
        LogEntry::ForwardRequestUpstream { label } => Some((5, label)),
        LogEntry::End => None,
    }
}

/// A copy of an event.
pub fn copy_entry(e: &LogEntry) -> (r: LogEntry)
    ensures
        entry_key(r) == entry_key(*e),
{
    match e {
        LogEntry::Register { label } => LogEntry::Register { label: label.clone() },
        LogEntry::Message { label } => LogEntry::Message { label: label.clone() },
        LogEntry::FoundResponseUpstream { label } => LogEntry::FoundResponseUpstream { label: label.clone() },
        LogEntry::ResponseArrivedDownstream { label } => LogEntry::ResponseArrivedDownstream { label: label.clone() },
        LogEntry::ForwardResponseDownstream { label } => LogEntry::ForwardResponseDownstream { label: label.clone() },
        LogEntry::ForwardRequestUpstream { label } => LogEntry::ForwardRequestUpstream { label: label.clone() },
        LogEntry::End => LogEntry::End,
    }
}

/// Whether two events are the same event: same kind, same label.
pub fn same_entry(a: &LogEntry, b: &LogEntry) -> (r: bool)
    ensures
        r == (entry_key(*a) == entry_key(*b)),
{
    match (entry_parts(a), entry_parts(b)) {
        (None, None) => true,
        (Some((ka, la)), Some((kb, lb))) => ka == kb && *la == *lb,
        _ => false,
    }
}

/// Why the log does not match what was expected.
#[derive(Clone, Debug)]
pub enum TallyError {
    /// An event was logged that was never expected.
    NotExpected(LogEntry),
    /// At the end, these events were logged a number of times other than
    /// expected: each with the number of times it was logged.
    Corrections(Vec<(LogEntry, i64)>),
}

/// How far the check has come.
#[derive(Clone, Copy, Debug, PartialEq, Eq, Structural)]
pub enum TallyStep {
    /// More events are due.
    Continue,
    /// The log ended as expected.
    Done,
}

/// The expected events, each with the number of times it is expected and
/// the number of times still to come.
pub struct Expected {
    events: Vec<LogEntry>,
    expected: Vec<i32>,
    remaining: Vec<i32>,
}

/// The position of the expected event that is `e`, if any.
pub open spec fn position_of(events: Seq<LogEntry>, e: LogEntry) -> Option<int> {
    if exists|i: int| 0 <= i < events.len() && entry_key(#[trigger] events[i]) == entry_key(e) {
        Some(choose|i: int| 0 <= i < events.len() && entry_key(#[trigger] events[i]) == entry_key(e))
    } else {
        None
    }
}

/// The events whose count did not come out right, in the table's order,
/// each with the number of times it was logged.
pub open spec fn spec_corrections(events: Seq<LogEntry>, expected: Seq<i32>, remaining: Seq<i32>) -> Seq<
    ((int, Seq<char>), int),
>
    decreases events.len(),
{
    if events.len() == 0 || expected.len() == 0 || remaining.len() == 0 {
        Seq::empty()
    } else {
        let front = spec_corrections(events.drop_last(), expected.drop_last(), remaining.drop_last());
        if remaining.last() != 0 {
            front.push((entry_key(events.last()), expected.last() - remaining.last()))
        } else {
            front
        }
    }
}

/// The log ends as expected exactly when every expected event came exactly
/// as many times as expected: no correction is listed then, and one is for
/// each event whose count is off.
pub proof fn lemma_no_corrections_iff_all_counted(events: Seq<LogEntry>, expected: Seq<i32>, remaining: Seq<i32>)
    requires
        expected.len() == events.len(),
        remaining.len() == events.len(),
    ensures
        spec_corrections(events, expected, remaining).len() == 0 <==> forall|i: int|
            0 <= i < remaining.len() ==> #[trigger] remaining[i] == 0,
    decreases events.len(),
{
    if events.len() > 0 {
        lemma_no_corrections_iff_all_counted(events.drop_last(), expected.drop_last(), remaining.drop_last());
        let front = spec_corrections(events.drop_last(), expected.drop_last(), remaining.drop_last());
        if forall|i: int| 0 <= i < remaining.len() ==> #[trigger] remaining[i] == 0 {
            assert forall|i: int| 0 <= i < remaining.drop_last().len() implies #[trigger] remaining.drop_last()[i] == 0 by {
                assert(remaining[i] == 0);
            }
            assert(remaining.last() == remaining[remaining.len() - 1]);
        }
        if spec_corrections(events, expected, remaining).len() == 0 {
            assert(remaining.last() == 0);
            assert(front.len() == 0);
            assert forall|i: int| 0 <= i < remaining.len() implies #[trigger] remaining[i] == 0 by {
                if i < remaining.len() - 1 {
                    assert(remaining.drop_last()[i] == 0);
                }
            }
        }
    }
}

/// The keys and counts of a list of corrections.
pub open spec fn correction_views(c: Seq<(LogEntry, i64)>) -> Seq<((int, Seq<char>), int)> {
    Seq::new(c.len(), |i: int| (entry_key(c[i].0), c[i].1 as int))
}

impl Expected {
    /// The expected events.
    pub closed spec fn events(&self) -> Seq<LogEntry> {
        self.events@
    }

    /// How many times each event is expected.
    pub closed spec fn expected(&self) -> Seq<i32> {
        self.expected@
    }

    /// How many times each event is still to come.
    pub closed spec fn remaining(&self) -> Seq<i32> {
        self.remaining@
    }

    /// Whether the table is in order: one count of each kind per event, no
    /// event twice, and no end among them.
    pub open spec fn wf(&self) -> bool {
        &&& self.expected().len() == self.events().len()
        &&& self.remaining().len() == self.events().len()
        &&& forall|i: int, j: int|
            0 <= i < j < self.events().len() ==> entry_key(#[trigger] self.events()[i]) != entry_key(
                #[trigger] self.events()[j],
            )
        &&& forall|i: int| 0 <= i < self.events().len() ==> !((#[trigger] self.events()[i]) is End)
    }

    /// Each event of `expected` expected its number of times.
    pub fn new(expected: Vec<(LogEntry, i32)>) -> (r: Self)
        requires
            forall|i: int, j: int|
                0 <= i < j < expected@.len() ==> entry_key(#[trigger] expected@[i].0) != entry_key(
                    #[trigger] expected@[j].0,
                ),
            forall|i: int| 0 <= i < expected@.len() ==> !((#[trigger] expected@[i]).0 is End),
        ensures
            r.wf(),
            r.events().len() == expected@.len(),
            forall|i: int|
                0 <= i < expected@.len() ==> entry_key(#[trigger] r.events()[i]) == entry_key(expected@[i].0)
                    && r.expected()[i] == expected@[i].1 && r.remaining()[i] == expected@[i].1,
    {
        let mut events: Vec<LogEntry> = Vec::new();
        let mut counts: Vec<i32> = Vec::new();
        let mut i: usize = 0;
        while i < expected.len()
            invariant
                i <= expected@.len(),
                events@.len() == i,
                counts@.len() == i,
                forall|k: int|
                    0 <= k < i ==> entry_key(#[trigger] events@[k]) == entry_key(expected@[k].0)
                        && counts@[k] == expected@[k].1,
            decreases expected@.len() - i,
        {
            events.push(copy_entry(&expected[i].0));
            counts.push(expected[i].1);
            i = i + 1;
        }
        let r = Expected { events, expected: counts.clone(), remaining: counts };
        assert forall|a: int, b: int|
            0 <= a < b < r.events().len() implies entry_key(#[trigger] r.events()[a]) != entry_key(
            #[trigger] r.events()[b],
        ) by {
            assert(entry_key(r.events()[a]) == entry_key(expected@[a].0));
            assert(entry_key(r.events()[b]) == entry_key(expected@[b].0));
        }
        assert forall|k: int| 0 <= k < r.events().len() implies !((#[trigger] r.events()[k]) is End) by {
            assert(entry_key(r.events()[k]) == entry_key(expected@[k].0));
        }
        r
    }

    /// The position of the expected event that is `entry`.
    fn find(&self, entry: &LogEntry) -> (r: Option<usize>)
        requires
            self.wf(),
        ensures
            r matches Some(i) ==> i < self.events().len() && position_of(self.events(), *entry) == Some(
                i as int,
            ),
            r is None ==> position_of(self.events(), *entry) is None,
    {
        let mut i: usize = 0;
        while i < self.events.len()
            invariant
                i <= self.events@.len(),
                self.wf(),
                forall|k: int| 0 <= k < i ==> entry_key(#[trigger] self.events@[k]) != entry_key(*entry),
            decreases self.events@.len() - i,
        {
            if same_entry(&self.events[i], entry) {
                proof {
                    let w = i as int;
                    assert(0 <= w < self.events@.len() && entry_key(self.events@[w]) == entry_key(*entry));
                    let c = position_of(self.events@, *entry).unwrap();
                    assert(entry_key(self.events@[c]) == entry_key(self.events@[w]));
                }
                return Some(i);
            }
            i = i + 1;
        }
        None
    }

    /// How many times the event `entry` is still to come, if it is expected.
    pub fn count_left(&self, entry: &LogEntry) -> (r: Option<i32>)
        requires
            self.wf(),
        ensures
            match position_of(self.events(), *entry) {
                Some(i) => r == Some(self.remaining()[i]),
                None => r is None,
            },
    {
        match self.find(entry) {
            Some(i) => Some(self.remaining[i]),
            None => None,
        }
    }

    /// Counts a logged event off: the event must be expected; the end checks
    /// that every count reached zero and lists the events whose count did
    /// not, with the number of times each was logged.
    pub fn record(&mut self, entry: &LogEntry) -> (r: Result<TallyStep, TallyError>)
        requires
            old(self).wf(),
            position_of(old(self).events(), *entry) matches Some(i) ==> old(self).remaining()[i] > i32::MIN,
        ensures
            final(self).wf(),
            final(self).events() == old(self).events(),
            final(self).expected() == old(self).expected(),
            *entry is End ==> final(self).remaining() == old(self).remaining() && if spec_corrections(
                old(self).events(),
                old(self).expected(),
                old(self).remaining(),
            ).len() == 0 {
                r == Ok::<TallyStep, TallyError>(TallyStep::Done)
            } else {
                (r matches Err(TallyError::Corrections(c)) && correction_views(c@) == spec_corrections(
                    old(self).events(),
                    old(self).expected(),
                    old(self).remaining(),
                ))
            },
            !(*entry is End) ==> match position_of(old(self).events(), *entry) {
                Some(i) => r == Ok::<TallyStep, TallyError>(TallyStep::Continue) && final(self).remaining()
                    == old(self).remaining().update(i, (old(self).remaining()[i] - 1) as i32),
                None => final(self).remaining() == old(self).remaining() && (r matches Err(
                    TallyError::NotExpected(e),
                ) && entry_key(e) == entry_key(*entry)),
            },
    {
        match entry {
            LogEntry::End => {
                let c = self.corrections();
                if c.len() == 0 {
                    Ok(TallyStep::Done)
                } else {
                    Err(TallyError::Corrections(c))
                }
            },
            _ => {
                match self.find(entry) {
                    Some(i) => {
                        let ghost p = position_of(self.events(), *entry);
                        assert(p == Some(i as int));
                        assert(self.remaining@[i as int] > i32::MIN);
                        let left = self.remaining[i];
                        self.remaining.set(i, left - 1);
                        Ok(TallyStep::Continue)
                    },
                    None => {
                        let e = copy_entry(entry);
                        Err(TallyError::NotExpected(e))
                    },
                }
            },
        }
    }

    /// The events whose count did not reach zero, with the number of times
    /// each was logged.
    fn corrections(&self) -> (r: Vec<(LogEntry, i64)>)
        requires
            self.wf(),
        ensures
            correction_views(r@) == spec_corrections(self.events(), self.expected(), self.remaining()),
    {
        let mut out: Vec<(LogEntry, i64)> = Vec::new();
        let mut i: usize = 0;
        while i < self.events.len()
            invariant
                i <= self.events@.len(),
                self.wf(),
                correction_views(out@) == spec_corrections(
                    self.events@.take(i as int),
                    self.expected@.take(i as int),
                    self.remaining@.take(i as int),
                ),
            decreases self.events@.len() - i,
        {
            assert(self.events@.take(i + 1).drop_last() =~= self.events@.take(i as int));
            assert(self.expected@.take(i + 1).drop_last() =~= self.expected@.take(i as int));
            assert(self.remaining@.take(i + 1).drop_last() =~= self.remaining@.take(i as int));
            if self.remaining[i] != 0 {
                let logged = self.expected[i] as i64 - self.remaining[i] as i64;
                let ghost before = out@;
                out.push((copy_entry(&self.events[i]), logged));
                assert(correction_views(out@) =~= correction_views(before).push(
                    (entry_key(self.events@[i as int]), logged as int),
                ));
            }
            i = i + 1;
        }
        assert(self.events@.take(i as int) =~= self.events@);
        assert(self.expected@.take(i as int) =~= self.expected@);
        assert(self.remaining@.take(i as int) =~= self.remaining@);
        out
    }
}

} // verus!
