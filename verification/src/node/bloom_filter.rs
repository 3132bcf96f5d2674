//! Bloom filters over the routing node's names.
use vstd::prelude::*;
use crate::common::BLOOM_FILTER_LENGTH;
use crate::node::hbfi::HBFI;
use crate::random::random_below;

verus! {

/// A `bitvec::vec::BitVec`, held whole; Verus sees only the bits it holds
/// through `bits_of`.
#[verifier::external_body]
pub struct BitStorage {
    bits: bitvec::vec::BitVec,
}

/// The bits held by a bit vector, in order.
pub uninterp spec fn bits_of(b: BitStorage) -> Seq<bool>;

/// `BitVec::repeat(false, len)`: a vector of `len` cleared bits.
#[verifier::external_body]
fn bitvec_zeros(len: usize) -> (r: BitStorage)
    ensures
        bits_of(r) == Seq::new(len as nat, |i: int| false),
{
    BitStorage { bits: bitvec::vec::BitVec::repeat(false, len) }
}

/// `BitSlice::set`: writes `value` at `index`, leaving every other bit.
#[verifier::external_body]
fn bitvec_set(b: &mut BitStorage, index: usize, value: bool)
    requires
        index < bits_of(*old(b)).len(),
    ensures
        bits_of(*final(b)) == bits_of(*old(b)).update(index as int, value),
{
    b.bits.set(index, value)
}

/// `BitSlice::get`: the bit at `index`.
#[verifier::external_body]
fn bitvec_get(b: &BitStorage, index: usize) -> (r: bool)
    requires
        index < bits_of(*b).len(),
    ensures
        r == bits_of(*b)[index as int],
{
    match b.bits.get(index) {
        Some(bit) => *bit,
        None => false,
    }
}

/// `BitVec::clone`: a copy holding the same bits.
#[verifier::external_body]
fn bitvec_clone(b: &BitStorage) -> (r: BitStorage)
    ensures
        bits_of(r) == bits_of(*b),
{
    BitStorage { bits: b.bits.clone() }
}

/// `BitVec::len`: the number of bits.
#[verifier::external_body]
fn bitvec_len(b: &BitStorage) -> (r: usize)
    ensures
        r == bits_of(*b).len(),
{
    b.bits.len()
}

/// The positions of a name in a bloom filter: the publisher's, then the name's.
pub open spec fn hbfi_positions(h: HBFI) -> Seq<u16> {
    h.id@ + h.h1@
}

/// Whether every position of a name lies inside a bloom filter.
pub open spec fn hbfi_in_range(h: HBFI) -> bool {
    forall|i: int| 0 <= i < 16 ==> (#[trigger] hbfi_positions(h)[i]) < BLOOM_FILTER_LENGTH
}

/// How many of the positions in `ps` are set in `bits`.
pub open spec fn count_set(bits: Seq<bool>, ps: Seq<u16>) -> nat
    decreases ps.len(),
{
    if ps.len() == 0 {
        0
    } else {
        count_set(bits, ps.drop_last()) + if bits[ps.last() as int] {
            1nat
        } else {
            0nat
        }
    }
}

/// How many bits of `bits` are set among the first `n`.
pub open spec fn count_ones(bits: Seq<bool>, n: nat) -> nat
    decreases n,
{
    if n == 0 {
        0
    } else {
        count_ones(bits, (n - 1) as nat) + if bits[n - 1] {
            1nat
        } else {
            0nat
        }
    }
}

/// `hits` out of `total` as a whole percentage, rounded down.
pub open spec fn percentage(hits: nat, total: nat) -> u8 {
    (hits * 100 / total) as u8
}

/// The bits after the positions in `ps` are written with `value`, in order.
pub open spec fn write_positions(bits: Seq<bool>, ps: Seq<u16>, value: bool) -> Seq<bool>
    decreases ps.len(),
{
    if ps.len() == 0 {
        bits
    } else {
        let w = write_positions(bits, ps.drop_last(), value);
        if (ps.last() as int) < w.len() {
            w.update(ps.last() as int, value)
        } else {
            w
        }
    }
}

/// Writing positions keeps the length, writes `value` at every position of
/// `ps` inside the bits, and keeps every other bit.
pub proof fn lemma_write_positions(bits: Seq<bool>, ps: Seq<u16>, value: bool)
    ensures
        write_positions(bits, ps, value).len() == bits.len(),
        forall|j: int|
            0 <= j < ps.len() && ps[j] < bits.len() ==> write_positions(bits, ps, value)[#[trigger] ps[j] as int]
                == value,
        forall|i: int|
            0 <= i < bits.len() && (forall|j: int| 0 <= j < ps.len() ==> ps[j] != i) ==> write_positions(bits, ps, value)[i]
                == bits[i],
    decreases ps.len(),
{
    if ps.len() > 0 {
        lemma_write_positions(bits, ps.drop_last(), value);
        assert forall|i: int|
            0 <= i < bits.len() && (forall|j: int| 0 <= j < ps.len() ==> ps[j] != i) implies write_positions(bits, ps, value)[i]
                == bits[i] by {
            assert forall|j: int| 0 <= j < ps.drop_last().len() implies ps.drop_last()[j] != i by {
                assert(ps.drop_last()[j] == ps[j]);
            }
            assert(ps[ps.len() - 1] != i);
            assert(write_positions(bits, ps.drop_last(), value)[i] == bits[i]);
        }
        assert forall|j: int|
            0 <= j < ps.len() && ps[j] < bits.len() implies write_positions(bits, ps, value)[#[trigger] ps[j] as int]
                == value by {
            let dl = ps.drop_last();
            if j < ps.len() - 1 && ps[j] != ps.last() {
                assert(dl[j] == ps[j]);
                assert(write_positions(bits, dl, value)[dl[j] as int] == value);
            }
        }
    }
}

/// A bloom filter over names.
pub struct BloomFilter {
    bloom: BitStorage,
}

impl Clone for BloomFilter {
    fn clone(&self) -> (r: Self)
        ensures
            r.bits() == self.bits(),
    {
        BloomFilter { bloom: bitvec_clone(&self.bloom) }
    }
}

impl BloomFilter {
    /// The bits of the filter.
    pub closed spec fn bits(&self) -> Seq<bool> {
        bits_of(self.bloom)
    }

    /// A filter has one bit per possible position.
    pub open spec fn wf(&self) -> bool {
        self.bits().len() == BLOOM_FILTER_LENGTH
    }

    /// An empty filter.
    pub fn new() -> (r: Self)
        ensures
            r.wf(),
            r.bits() == Seq::new(BLOOM_FILTER_LENGTH as nat, |i: int| false),
    {
        BloomFilter { bloom: bitvec_zeros(BLOOM_FILTER_LENGTH as usize) }
    }

    /// Writes `value` at every position of `ps`.
    fn write(&mut self, ps: &[u16], value: bool)
        requires
            old(self).wf(),
            forall|i: int| 0 <= i < ps@.len() ==> ps@[i] < BLOOM_FILTER_LENGTH,
        ensures
            final(self).wf(),
            final(self).bits() == write_positions(old(self).bits(), ps@, value),
    {
        let ghost start = self.bits();
        let mut k: usize = 0;
        while k < ps.len()
            invariant
                k <= ps@.len(),
                self.wf(),
                forall|i: int| 0 <= i < ps@.len() ==> ps@[i] < BLOOM_FILTER_LENGTH,
                self.bits() == write_positions(start, ps@.subrange(0, k as int), value),
            decreases ps@.len() - k,
        {
            proof {
                lemma_write_positions(start, ps@.subrange(0, k as int), value);
            }
            bitvec_set(&mut self.bloom, ps[k] as usize, value);
            k = k + 1;
            assert(ps@.subrange(0, k as int).drop_last() =~= ps@.subrange(0, k - 1));
        }
        assert(ps@.subrange(0, k as int) =~= ps@);
    }

    /// Counts how many positions of `ps` are set.
    fn count(&self, ps: &[u16]) -> (r: u32)
        requires
            self.wf(),
            ps@.len() <= 16,
            forall|i: int| 0 <= i < ps@.len() ==> ps@[i] < BLOOM_FILTER_LENGTH,
        ensures
            r == count_set(self.bits(), ps@),
    {
        let mut hits: u32 = 0;
        let mut k: usize = 0;
        while k < ps.len()
            invariant
                k <= ps@.len() <= 16,
                self.wf(),
                forall|i: int| 0 <= i < ps@.len() ==> ps@[i] < BLOOM_FILTER_LENGTH,
                hits == count_set(self.bits(), ps@.subrange(0, k as int)),
                hits <= k,
            decreases ps@.len() - k,
        {
            let bit = bitvec_get(&self.bloom, ps[k] as usize);
            assert(ps@.subrange(0, k + 1).drop_last() =~= ps@.subrange(0, k as int));
            if bit {
                hits = hits + 1;
            }
            k = k + 1;
        }
        assert(ps@.subrange(0, k as int) =~= ps@);
        hits
    }
}

} // verus!

verus! {

/// The positions of a name, the publisher's first.
fn positions(h: &HBFI) -> (r: Vec<u16>)
    ensures
        r@ == hbfi_positions(*h),
{
    let mut v: Vec<u16> = Vec::new();
    let mut i: usize = 0;
    while i < 8
        invariant
            i <= 8,
            v@ == h.id@.subrange(0, i as int),
        decreases 8 - i,
    {
        v.push(h.id[i]);
        i = i + 1;
        assert(v@ =~= h.id@.subrange(0, i as int));
    }
    let mut i: usize = 0;
    while i < 8
        invariant
            i <= 8,
            v@ == h.id@ + h.h1@.subrange(0, i as int),
        decreases 8 - i,
    {
        v.push(h.h1[i]);
        i = i + 1;
        assert(v@ =~= h.id@ + h.h1@.subrange(0, i as int));
    }
    assert(v@ =~= hbfi_positions(*h));
    v
}

impl BloomFilter {
    /// Sets every position of the name.
    pub fn insert(&mut self, packet: &HBFI)
        requires
            old(self).wf(),
            hbfi_in_range(*packet),
        ensures
            final(self).wf(),
            final(self).bits() == write_positions(old(self).bits(), hbfi_positions(*packet), true),
    {
        let ps = positions(packet);
        self.write(ps.as_slice(), true);
    }

    /// Clears every position of the name.
    pub fn delete(&mut self, packet: &HBFI)
        requires
            old(self).wf(),
            hbfi_in_range(*packet),
        ensures
            final(self).wf(),
            final(self).bits() == write_positions(old(self).bits(), hbfi_positions(*packet), false),
    {
        let ps = positions(packet);
        self.write(ps.as_slice(), false);
    }

    /// The share of the name's positions that are set, as a whole percentage.
    pub fn contains(&self, packet: &HBFI) -> (r: u8)
        requires
            self.wf(),
            hbfi_in_range(*packet),
        ensures
            r == percentage(count_set(self.bits(), hbfi_positions(*packet)), 16),
    {
        let ps = positions(packet);
        let hits = self.count(ps.as_slice());
        proof {
            lemma_count_set_bound(self.bits(), ps@);
        }
        (hits * 100 / 16) as u8
    }

    /// The share of all bits that are set, as a whole percentage.
    pub fn decoherence(&self) -> (r: u8)
        requires
            self.wf(),
        ensures
            r == percentage(count_ones(self.bits(), BLOOM_FILTER_LENGTH as nat), BLOOM_FILTER_LENGTH as nat),
    {
        let len = bitvec_len(&self.bloom);
        let mut hits: u64 = 0;
        let mut i: usize = 0;
        while i < len
            invariant
                i <= len == self.bits().len() == BLOOM_FILTER_LENGTH,
                hits == count_ones(self.bits(), i as nat),
                hits <= i,
            decreases len - i,
        {
            if bitvec_get(&self.bloom, i) {
                hits = hits + 1;
            }
            i = i + 1;
        }
        proof {
            assert(hits * 100 / (len as int) <= 100) by (nonlinear_arith)
                requires
                    hits <= len,
                    len > 0,
            ;
        }
        (hits * 100 / (len as u64)) as u8
    }

    /// Clears bits drawn at random among the first 2048, 2048 times.
    pub fn partially_forget(&mut self)
        requires
            old(self).wf(),
        ensures
            final(self).wf(),
            cleared_by_draws(old(self).bits(), final(self).bits()),
            forall|i: int| 0 <= i < BLOOM_FILTER_LENGTH ==> #[trigger] final(self).bits()[i] ==> old(self).bits()[i],
            forall|i: int| 2048 <= i < BLOOM_FILTER_LENGTH ==> #[trigger] final(self).bits()[i] == old(self).bits()[i],
    {
        let ghost start = self.bits();
        let ghost mut drawn: Seq<u16> = Seq::empty();
        let mut k: usize = 0;
        while k < 2048
            invariant
                k <= 2048,
                self.wf(),
                start.len() == BLOOM_FILTER_LENGTH,
                drawn.len() == k,
                forall|j: int| 0 <= j < drawn.len() ==> #[trigger] drawn[j] < 2048,
                self.bits() == write_positions(start, drawn, false),
                forall|i: int| 0 <= i < BLOOM_FILTER_LENGTH ==> #[trigger] self.bits()[i] ==> start[i],
                forall|i: int| 2048 <= i < BLOOM_FILTER_LENGTH ==> #[trigger] self.bits()[i] == start[i],
            decreases 2048 - k,
        {
            let index = random_below(2048);
            proof {
                lemma_write_positions(start, drawn, false);
                let next = drawn.push(index as u16);
                assert(next.drop_last() =~= drawn);
                assert(next.last() as int == index as int);
                drawn = next;
            }
            bitvec_set(&mut self.bloom, index, false);
            k = k + 1;
        }
        assert(cleared_by_draws(start, self.bits()));
    }
}

/// Whether `after` is `before` with the bits at 2048 drawn positions, each
/// below 2048, cleared in turn.
pub open spec fn cleared_by_draws(before: Seq<bool>, after: Seq<bool>) -> bool {
    exists|ps: Seq<u16>|
        #![trigger write_positions(before, ps, false)]
        ps.len() == 2048 && (forall|j: int| 0 <= j < ps.len() ==> #[trigger] ps[j] < 2048) && after
            == write_positions(before, ps, false)
}

/// At most as many positions are set as there are positions.
pub proof fn lemma_count_set_bound(bits: Seq<bool>, ps: Seq<u16>)
    ensures
        count_set(bits, ps) <= ps.len(),
    decreases ps.len(),
{
    if ps.len() > 0 {
        lemma_count_set_bound(bits, ps.drop_last());
    }
}

} // verus!

verus! {

/// When every position of `ps` holds `value`, the count of set positions is
/// all of them (for `true`) or none (for `false`).
pub proof fn lemma_count_set_uniform(bits: Seq<bool>, ps: Seq<u16>, value: bool)
    requires
        forall|j: int| 0 <= j < ps.len() ==> bits[#[trigger] ps[j] as int] == value,
    ensures
        count_set(bits, ps) == if value {
            ps.len()
        } else {
            0
        },
    decreases ps.len(),
{
    if ps.len() > 0 {
        assert forall|j: int| 0 <= j < ps.drop_last().len() implies bits[#[trigger] ps.drop_last()[j] as int]
            == value by {
            assert(ps.drop_last()[j] == ps[j]);
        }
        lemma_count_set_uniform(bits, ps.drop_last(), value);
        assert(bits[ps[ps.len() - 1] as int] == value);
    }
}

/// A name just inserted into a filter is contained in full, and a name just
/// deleted from a filter is not contained at all.
pub proof fn lemma_insert_then_contains(bits: Seq<bool>, h: HBFI)
    requires
        bits.len() == BLOOM_FILTER_LENGTH,
        hbfi_in_range(h),
    ensures
        percentage(count_set(write_positions(bits, hbfi_positions(h), true), hbfi_positions(h)), 16)
            == 100,
        percentage(count_set(write_positions(bits, hbfi_positions(h), false), hbfi_positions(h)), 16)
            == 0,
{
    let ps = hbfi_positions(h);
    lemma_write_positions(bits, ps, true);
    lemma_write_positions(bits, ps, false);
    assert forall|j: int| 0 <= j < ps.len() implies write_positions(bits, ps, true)[#[trigger] ps[j] as int] == true by {
        assert(hbfi_positions(h)[j] < BLOOM_FILTER_LENGTH);
    }
    assert forall|j: int| 0 <= j < ps.len() implies write_positions(bits, ps, false)[#[trigger] ps[j] as int] == false by {
        assert(hbfi_positions(h)[j] < BLOOM_FILTER_LENGTH);
    }
    lemma_count_set_uniform(write_positions(bits, ps, true), ps, true);
    lemma_count_set_uniform(write_positions(bits, ps, false), ps, false);
}

/// An empty filter contains no name and has no set bit.
pub proof fn lemma_empty_filter(h: HBFI)
    requires
        hbfi_in_range(h),
    ensures
        percentage(count_set(Seq::new(BLOOM_FILTER_LENGTH as nat, |i: int| false), hbfi_positions(h)), 16)
            == 0,
        percentage(count_ones(Seq::new(BLOOM_FILTER_LENGTH as nat, |i: int| false), BLOOM_FILTER_LENGTH as nat), BLOOM_FILTER_LENGTH as nat)
            == 0,
{
    let bits = Seq::new(BLOOM_FILTER_LENGTH as nat, |i: int| false);
    let ps = hbfi_positions(h);
    assert forall|j: int| 0 <= j < ps.len() implies bits[#[trigger] ps[j] as int] == false by {
        assert(hbfi_positions(h)[j] < BLOOM_FILTER_LENGTH);
    }
    lemma_count_set_uniform(bits, ps, false);
    lemma_count_ones_empty(BLOOM_FILTER_LENGTH as nat);
}

/// No bit among the first `n` of an empty filter is set.
proof fn lemma_count_ones_empty(n: nat)
    requires
        n <= BLOOM_FILTER_LENGTH,
    ensures
        count_ones(Seq::new(BLOOM_FILTER_LENGTH as nat, |i: int| false), n) == 0,
    decreases n,
{
    if n > 0 {
        lemma_count_ones_empty((n - 1) as nat);
    }
}



/// Counting the set positions of two lists is counting each.
pub proof fn lemma_count_set_concat(bits: Seq<bool>, a: Seq<u16>, b: Seq<u16>)
    ensures
        count_set(bits, a + b) == count_set(bits, a) + count_set(bits, b),
    decreases b.len(),
{
    if b.len() == 0 {
        assert(a + b =~= a);
    } else {
        lemma_count_set_concat(bits, a, b.drop_last());
        assert((a + b).drop_last() =~= a + b.drop_last());
    }
}

/// No position of a list of clear positions is set.
proof fn lemma_count_set_clear(bits: Seq<bool>, ps: Seq<u16>)
    requires
        forall|i: int| 0 <= i < ps.len() ==> !bits[#[trigger] ps[i] as int],
    ensures
        count_set(bits, ps) == 0,
    decreases ps.len(),
{
    if ps.len() > 0 {
        lemma_count_set_clear(bits, ps.drop_last());
    }
}

/// Inserting a name sets both its publisher's positions and its own.
pub proof fn law_insert_sets_the_whole_name(bits: Seq<bool>, h: HBFI)
    requires
        bits.len() == BLOOM_FILTER_LENGTH,
        hbfi_in_range(h),
    ensures
        forall|i: int| 0 <= i < 8 ==> write_positions(bits, hbfi_positions(h), true)[#[trigger] h.h1[i] as int],
        forall|i: int| 0 <= i < 8 ==> write_positions(bits, hbfi_positions(h), true)[#[trigger] h.id[i] as int],
{
    let ps = hbfi_positions(h);
    lemma_write_positions(bits, ps, true);
    assert forall|i: int| 0 <= i < 8 implies write_positions(bits, ps, true)[#[trigger] h.h1[i] as int] by {
        assert(ps[8 + i] == h.h1[i]);
        assert(ps[8 + i] < BLOOM_FILTER_LENGTH);
    }
    assert forall|i: int| 0 <= i < 8 implies write_positions(bits, ps, true)[#[trigger] h.id[i] as int] by {
        assert(ps[i] == h.id[i]);
        assert(ps[i] < BLOOM_FILTER_LENGTH);
    }
}

/// A name is at most half contained while none of its own positions is
/// set, whatever its publisher's positions hold: only half the positions
/// of a name are its publisher's.
pub proof fn law_contains_needs_the_own_positions(bits: Seq<bool>, h: HBFI)
    requires
        forall|i: int| 0 <= i < 8 ==> !bits[#[trigger] h.h1[i] as int],
    ensures
        percentage(count_set(bits, hbfi_positions(h)), 16) <= 50,
{
    lemma_count_set_concat(bits, h.id@, h.h1@);
    assert forall|i: int| 0 <= i < h.h1@.len() implies !bits[#[trigger] h.h1@[i] as int] by {
        assert(h.h1@[i] == h.h1[i]);
    }
    lemma_count_set_clear(bits, h.h1@);
    lemma_count_set_bound(bits, h.id@);
    let n = count_set(bits, hbfi_positions(h));
    assert(n <= 8);
    assert(n * 100 / 16 <= 50) by (nonlinear_arith)
        requires
            n <= 8,
    ;
}

} // verus!

