//! Laws of the set model.
//!
//! Every operation's contract speaks of the set of elements `self@`.
//! The proofs here state, once and for all inputs, how those
//! contracts compose: what a run of inserts leaves behind, and how
//! membership round-trips through insert, remove and take.

use vstd::prelude::*;

verus! {

broadcast use vstd::set::group_set_axioms, vstd::seq::group_seq_axioms;

/// Uniqueness: inserting `k` pairwise-distinct values and then any
/// run of values already present leaves a set of exactly `k`
/// elements.  By `insert`'s and `from_vec`'s contracts a set built
/// from the sequence `elems + dups` is `(elems + dups).to_set()`, and
/// `len` returns its cardinality.
pub proof fn law_uniqueness(elems: Seq<u64>, dups: Seq<u64>)
    requires
        elems.no_duplicates(),
        forall|i: int| 0 <= i < dups.len() ==> elems.contains(#[trigger] dups[i]),
    ensures
        (elems + dups).to_set() == elems.to_set(),
        (elems + dups).to_set().len() == elems.len(),
{
    assert forall|y: u64| (elems + dups).contains(y) implies elems.contains(y) by {
        let k = choose|k: int| 0 <= k < (elems + dups).len() && (elems + dups)[k] == y;
        if k < elems.len() {
            assert(elems[k] == y);
        } else {
            assert(dups[k - elems.len()] == y);
        }
    }
    assert forall|y: u64| elems.contains(y) implies (elems + dups).contains(y) by {
        let k = choose|k: int| 0 <= k < elems.len() && elems[k] == y;
        assert((elems + dups)[k] == y);
    }
    assert((elems + dups).to_set() =~= elems.to_set());
    elems.unique_seq_to_set();
}

/// Inserting an element that is already present changes nothing, so
/// a duplicate `insert` — which by its contract returns `false` —
/// leaves the length as it was.
pub proof fn law_duplicate_insert(s: Set<u64>, e: u64)
    requires
        s.contains(e),
    ensures
        s.insert(e) == s,
{
    assert(s.insert(e) =~= s);
}

/// Round-trip membership: after an insert the element is contained;
/// after a subsequent remove it is not; and removing an absent
/// element leaves the set — hence its size — unchanged.  These are
/// the values `contains`, `insert` and `remove` are proved to
/// produce on `self@`.
pub proof fn law_round_trip(s: Set<u64>, e: u64)
    ensures
        s.insert(e).contains(e),
        !s.insert(e).remove(e).contains(e),
        !s.contains(e) ==> s.remove(e) == s,
{
    if !s.contains(e) {
        assert(s.remove(e) =~= s);
    }
}

/// take/replace duality: `take` removes the stored element equal to
/// the probe, and re-inserting an equal element restores the set
/// as it was.  `replace` on a present element returns the
/// stored value and keeps the element contained, since by its
/// contract the set afterwards is `self@.insert(e)` and that set
/// contains `e`.
pub proof fn law_take_reinsert(s: Set<u64>, e: u64)
    requires
        s.contains(e),
    ensures
        s.remove(e).insert(e) == s,
        s.insert(e) == s && s.insert(e).contains(e),
{
    assert(s.remove(e).insert(e) =~= s);
    assert(s.insert(e) =~= s);
}

} // verus!
