//! Sets of frame numbers and the strictly increasing sequences that list
//! them: the order in which a request walks the frames of its content.
use vstd::prelude::*;
use std::collections::BTreeSet;

verus! {

/// Whether `s` is strictly increasing.
pub open spec fn sorted(s: Seq<u64>) -> bool {
    forall|i: int, j: int| 0 <= i < j < s.len() ==> s[i] < s[j]
}

/// The frame numbers in `s`.
pub open spec fn elems(s: Seq<u64>) -> Set<u64> {
    Set::new(|x: u64| s.contains(x))
}

/// The strictly increasing sequence of the frame numbers in `x`.
pub open spec fn sorted_of(x: Set<u64>) -> Seq<u64> {
    choose|s: Seq<u64>| sorted(s) && elems(s) == x
}

/// A strictly increasing sequence is fixed by its elements.
pub proof fn lemma_sorted_unique(a: Seq<u64>, b: Seq<u64>)
    requires
        sorted(a),
        sorted(b),
        elems(a) == elems(b),
    ensures
        a == b,
    decreases a.len(),
{
    if a.len() == 0 {
        if b.len() > 0 {
            assert(elems(b).contains(b[0]));
            assert(!a.contains(b[0]));
        }
        assert(a =~= b);
    } else {
        assert(elems(a).contains(a[0]));
        assert(b.len() > 0);
        assert(elems(b).contains(b[0]));
        let ia = choose|i: int| 0 <= i < a.len() && a[i] == b[0];
        let ib = choose|i: int| 0 <= i < b.len() && b[i] == a[0];
        assert(a[0] <= a[ia]);
        assert(b[0] <= b[ib]);
        assert(a[0] == b[0]);
        let a1 = a.skip(1);
        let b1 = b.skip(1);
        assert forall|x: u64| elems(a1).contains(x) <==> elems(b1).contains(x) by {
            if elems(a1).contains(x) {
                let k = choose|k: int| 0 <= k < a1.len() && a1[k] == x;
                assert(a[k + 1] == x);
                assert(x > a[0]);
                assert(elems(a).contains(x));
                let m = choose|m: int| 0 <= m < b.len() && b[m] == x;
                assert(m != 0);
                assert(b1[m - 1] == x);
            }
            if elems(b1).contains(x) {
                let k = choose|k: int| 0 <= k < b1.len() && b1[k] == x;
                assert(b[k + 1] == x);
                assert(x > b[0]);
                assert(elems(b).contains(x));
                let m = choose|m: int| 0 <= m < a.len() && a[m] == x;
                assert(m != 0);
                assert(a1[m - 1] == x);
            }
        }
        assert(elems(a1) =~= elems(b1));
        lemma_sorted_unique(a1, b1);
        assert(a =~= seq![a[0]] + a1);
        assert(b =~= seq![b[0]] + b1);
    }
}

/// The elements of a sequence are finitely many.
pub proof fn lemma_elems_finite(s: Seq<u64>)
    ensures
        elems(s).finite(),
{
    assert(elems(s) =~= s.to_set());
    vstd::seq_lib::seq_to_set_is_finite(s);
}

/// A finite, nonempty set of frame numbers has a greatest element.
pub proof fn lemma_finite_max(x: Set<u64>)
    requires
        x.finite(),
        x.len() > 0,
    ensures
        exists|m: u64| x.contains(m) && forall|y: u64| x.contains(y) ==> y <= m,
    decreases x.len(),
{
    let y = x.choose();
    assert(x.contains(y));
    let rest = x.remove(y);
    if rest.len() == 0 {
        assert forall|z: u64| x.contains(z) implies z <= y by {
            if z != y {
                assert(rest.contains(z));
            }
        }
    } else {
        lemma_finite_max(rest);
        let m = choose|m: u64| rest.contains(m) && forall|z: u64| rest.contains(z) ==> z <= m;
        let top = if y > m { y } else { m };
        assert forall|z: u64| x.contains(z) implies z <= top by {
            if z != y {
                assert(rest.contains(z));
            }
        }
        assert(x.contains(top));
    }
}

/// Every finite set of frame numbers is the set of some strictly increasing
/// sequence.
pub proof fn lemma_sorted_exists(x: Set<u64>)
    requires
        x.finite(),
    ensures
        exists|s: Seq<u64>| sorted(s) && elems(s) == x,
    decreases x.len(),
{
    if x.len() == 0 {
        x.lemma_len0_is_empty();
        let s = Seq::<u64>::empty();
        assert(elems(s) =~= x);
        assert(sorted(s) && elems(s) == x);
    } else {
        lemma_finite_max(x);
        let m = choose|m: u64| x.contains(m) && forall|y: u64| x.contains(y) ==> y <= m;
        let rest = x.remove(m);
        lemma_sorted_exists(rest);
        let t = choose|t: Seq<u64>| sorted(t) && elems(t) == rest;
        let s = t.push(m);
        assert forall|i: int, j: int| 0 <= i < j < s.len() implies s[i] < s[j] by {
            if j == t.len() {
                assert(elems(t).contains(t[i]));
                assert(rest.contains(t[i]));
            }
        }
        lemma_elems_push(t, m);
        assert(rest.insert(m) =~= x);
        assert(sorted(s) && elems(s) == x);
    }
}

/// The sorted sequence of a finite set is strictly increasing and holds
/// exactly its elements.
pub proof fn lemma_sorted_of_finite(x: Set<u64>)
    requires
        x.finite(),
    ensures
        sorted(sorted_of(x)),
        elems(sorted_of(x)) == x,
{
    lemma_sorted_exists(x);
}

/// A strictly increasing sequence is the sorted sequence of its elements.
pub proof fn lemma_sorted_of(s: Seq<u64>)
    requires
        sorted(s),
    ensures
        sorted_of(elems(s)) == s,
{
    let t = sorted_of(elems(s));
    assert(sorted(s) && elems(s) == elems(s));
    assert(sorted(t) && elems(t) == elems(s));
    lemma_sorted_unique(t, s);
}

/// Appending a frame adds it to the elements.
pub proof fn lemma_elems_push(s: Seq<u64>, x: u64)
    ensures
        elems(s.push(x)) == elems(s).insert(x),
{
    assert forall|y: u64| elems(s.push(x)).contains(y) <==> elems(s).insert(x).contains(y) by {
        if s.push(x).contains(y) {
            let k = choose|k: int| 0 <= k < s.push(x).len() && s.push(x)[k] == y;
            if k < s.len() {
                assert(s[k] == y);
            }
        }
        if s.contains(y) {
            let k = choose|k: int| 0 <= k < s.len() && s[k] == y;
            assert(s.push(x)[k] == y);
        }
        if y == x {
            assert(s.push(x)[s.len() as int] == x);
        }
    }
    assert(elems(s.push(x)) =~= elems(s).insert(x));
}

/// Frame numbers are ordered as integers are.
pub(crate) proof fn lemma_u64_ordered()
    ensures
        vstd::laws_cmp::obeys_cmp::<u64>(),
{
    broadcast use vstd::laws_cmp::group_laws_cmp;
}

/// A sequence of frame numbers that a set of them yields in increasing
/// order is strictly increasing.
proof fn lemma_increasing_frames(all: Seq<&u64>)
    requires
        vstd::std_specs::btree::increasing_seq(all),
    ensures
        sorted(all.map_values(|v: &u64| *v)),
{
    broadcast use vstd::laws_cmp::group_laws_cmp;
    let s = all.map_values(|v: &u64| *v);
    assert forall|i: int, j: int| 0 <= i < j < s.len() implies s[i] < s[j] by {
        assert(vstd::std_specs::cmp::OrdSpec::cmp_spec(&all[i], &all[j]) is Less);
    }
}

/// The frames of `s`, in increasing order. A set of frames is finite.
pub fn sorted_frames(s: &BTreeSet<u64>) -> (r: Vec<u64>)
    ensures
        r@ == sorted_of(s@),
        sorted(r@),
        elems(r@) == s@,
        s@.finite(),
{
    proof {
        lemma_u64_ordered();
    }
    let ghost all: Seq<&u64> = vstd::std_specs::iter::IteratorSpec::remaining(&vstd::std_specs::btree::spec_btree_keys_iter(s));
    let mut r: Vec<u64> = Vec::new();
    for x in it: s.iter()
        invariant
            it.seq() == all,
            r@ == all.take(it.index()).map_values(|v: &u64| *v),
    {
        r.push(*x);
        assert(r@ =~= all.take(it.index() + 1).map_values(|v: &u64| *v));
    }
    assert(all.take(all.len() as int) =~= all);
    proof {
        lemma_increasing_frames(all);
    }
    assert(elems(r@) =~= s@) by {
        assert forall|y: u64| elems(r@).contains(y) <==> s@.contains(y) by {
            if s@.contains(y) {
                assert(all.unref().to_set().contains(y));
                let k = choose|k: int| 0 <= k < all.len() && all.unref()[k] == y;
                assert(r@[k] == y);
            }
            if r@.contains(y) {
                let k = choose|k: int| 0 <= k < r@.len() && r@[k] == y;
                assert(all.unref()[k] == y);
                assert(all.unref().to_set().contains(y));
            }
        }
    }
    proof {
        lemma_sorted_of(r@);
        lemma_elems_finite(r@);
    }
    r
}

} // verus!
