//! The set container itself: a tagged union over the two
//! representations, with the one-way promotion from the inline buffer
//! to a hash table.

use vstd::prelude::*;
use vstd::std_specs::iter::IteratorSpec;
use std::collections::HashSet;
use crate::views::{SmolSetIter, SmallDrain, SmallIntersection, SmallUnion, SmallDifference, SmallSymmetricDifference};
use crate::stack_buf::{StackBuf, stack_elems, buf_new, buf_len, buf_get, buf_push, buf_remove, buf_clear, buf_clone};

verus! {

broadcast use
    vstd::std_specs::hash::group_hash_axioms,
    vstd::set::group_set_axioms,
    vstd::seq::group_seq_axioms,
    vstd::seq_lib::seq_to_set_is_finite;

/// Appending a fresh element adds it to the element set and keeps the
/// order free of duplicates.
proof fn lemma_push_to_set(s: Seq<u64>, x: u64)
    ensures
        s.push(x).to_set() == s.to_set().insert(x),
        s.no_duplicates() && !s.contains(x) ==> s.push(x).no_duplicates(),
{
    assert forall|y: u64| s.push(x).contains(y) <==> s.to_set().insert(x).contains(y) by {
        if s.push(x).contains(y) {
            let k = choose|k: int| 0 <= k < s.push(x).len() && s.push(x)[k] == y;
            if k < s.len() {
                assert(s[k] == y);
            }
        }
        if s.to_set().insert(x).contains(y) {
            if s.contains(y) {
                let k = choose|k: int| 0 <= k < s.len() && s[k] == y;
                assert(s.push(x)[k] == y);
            } else {
                assert(s.push(x)[s.len() as int] == y);
            }
        }
    }
    assert(s.push(x).to_set() =~= s.to_set().insert(x));
}

/// Removing the only occurrence of an element takes it out of the
/// element set and keeps the rest free of duplicates.
proof fn lemma_remove_to_set(s: Seq<u64>, i: int)
    requires
        s.no_duplicates(),
        0 <= i < s.len(),
    ensures
        s.remove(i).to_set() == s.to_set().remove(s[i]),
        s.remove(i).no_duplicates(),
{
    let r = s.remove(i);
    assert forall|y: u64| r.contains(y) <==> s.to_set().remove(s[i]).contains(y) by {
        if r.contains(y) {
            let k = choose|k: int| 0 <= k < r.len() && r[k] == y;
            if k < i {
                assert(s[k] == y);
            } else {
                assert(s[k + 1] == y);
            }
        }
        if s.contains(y) && y != s[i] {
            let k = choose|k: int| 0 <= k < s.len() && s[k] == y;
            if k < i {
                assert(r[k] == y);
            } else {
                assert(r[k - 1] == y);
            }
        }
    }
    assert(r.to_set() =~= s.to_set().remove(s[i]));
}

/// Taking one more element extends the element set of a prefix, and
/// in a duplicate-free sequence the element taken is new.
proof fn lemma_take_next(s: Seq<u64>, i: int)
    requires
        0 <= i < s.len(),
    ensures
        s.take(i + 1).to_set() == s.take(i).to_set().insert(s[i]),
        s.no_duplicates() ==> !s.take(i).to_set().contains(s[i]),
        s.take(i).to_set().finite(),
{
    assert(s.take(i + 1) =~= s.take(i).push(s[i]));
    lemma_push_to_set(s.take(i), s[i]);
    vstd::seq_lib::seq_to_set_is_finite(s.take(i));
    if s.no_duplicates() && s.take(i).to_set().contains(s[i]) {
        let k = choose|k: int| 0 <= k < i && s.take(i)[k] == s[i];
        assert(s[k] == s[i]);
        assert(false);
    }
}

/// Which representation a set is currently using.
#[derive(PartialEq, Eq, Structural, Debug, Clone, Copy)]
pub enum SetMode {
    Stack,
    Heap,
}

/// The two representations of a set: the inline buffer, scanned
/// linearly, and the heap-backed hash table.
pub enum InnerSmolSet {
    Stack(StackBuf),
    Heap(HashSet<u64>),
}

/// An unordered set of `u64` elements, stored without heap allocation
/// while its size stays within the capacity given to [`SmolSet::new`],
/// and in a hash table from the moment that capacity would be passed.
pub struct SmolSet {
    cap: usize,
    inner: InnerSmolSet,
}

impl View for SmolSet {
    type V = Set<u64>;

    /// A set is modelled by the mathematical set of its elements.
    closed spec fn view(&self) -> Set<u64> {
        match self.inner {
            InnerSmolSet::Stack(b) => stack_elems(b).to_set(),
            InnerSmolSet::Heap(h) => h@,
        }
    }
}

impl SmolSet {
    #[verifier::type_invariant]
    closed spec fn wf(self) -> bool {
        match self.inner {
            InnerSmolSet::Stack(b) => stack_elems(b).no_duplicates() && stack_elems(b).len()
                <= self.cap,
            InnerSmolSet::Heap(_) => true,
        }
    }

    /// The representation currently active.
    pub closed spec fn spec_mode(&self) -> SetMode {
        match self.inner {
            InnerSmolSet::Stack(_) => SetMode::Stack,
            InnerSmolSet::Heap(_) => SetMode::Heap,
        }
    }

    /// The inline capacity this set was created with: the sole
    /// promotion threshold.
    pub closed spec fn spec_cap(&self) -> nat {
        self.cap as nat
    }

    /// In stack mode, the elements in insertion order; meaningless in
    /// heap mode, where iteration order is arbitrary.
    pub closed spec fn spec_order(&self) -> Seq<u64> {
        match self.inner {
            InnerSmolSet::Stack(b) => stack_elems(b),
            InnerSmolSet::Heap(_) => Seq::empty(),
        }
    }

    /// Creates a new, empty set that promotes to the heap as soon as
    /// it would hold more than `cap` elements.
    pub fn new(cap: usize) -> (s: SmolSet)
        ensures
            s@ == Set::<u64>::empty(),
            s.spec_cap() == cap,
            s.spec_mode() == SetMode::Stack,
            s.spec_order() == Seq::<u64>::empty(),
    {
        let b = buf_new();
        let s = SmolSet { cap, inner: InnerSmolSet::Stack(b) };
        proof {
            assert(stack_elems(b).to_set() =~= Set::<u64>::empty());
        }
        s
    }

    /// Reports which representation is active.
    pub fn mode(&self) -> (m: SetMode)
        ensures
            m == self.spec_mode(),
    {
        match &self.inner {
            InnerSmolSet::Stack(_) => SetMode::Stack,
            InnerSmolSet::Heap(_) => SetMode::Heap,
        }
    }

    /// The number of elements currently in the set.
    pub fn len(&self) -> (n: usize)
        ensures
            n == self@.len(),
            self@.finite(),
    {
        proof {
            use_type_invariant(self);
        }
        match &self.inner {
            InnerSmolSet::Stack(b) => {
                proof {
                    stack_elems(*b).unique_seq_to_set();
                }
                buf_len(b)
            },
            InnerSmolSet::Heap(h) => {
                proof {
                    assert(vstd::std_specs::hash::spec_hash_keys_iter(
                        h,
                    ).remaining().unref().to_set() == h@);
                }
                h.len()
            },
        }
    }

    /// Whether the set holds no elements.
    pub fn is_empty(&self) -> (r: bool)
        ensures
            r == (self@.len() == 0),
    {
        self.len() == 0
    }

    /// Whether an element equal to `elem` is present.
    pub fn contains(&self, elem: u64) -> (r: bool)
        ensures
            r == self@.contains(elem),
    {
        match &self.inner {
            InnerSmolSet::Stack(b) => {
                let n = buf_len(b);
                let mut i: usize = 0;
                while i < n
                    invariant
                        n == stack_elems(*b).len(),
                        i <= n,
                        self@ == stack_elems(*b).to_set(),
                        forall|j: int| 0 <= j < i ==> stack_elems(*b)[j] != elem,
                    decreases n - i,
                {
                    if buf_get(b, i) == elem {
                        assert(stack_elems(*b).contains(elem));
                        assert(stack_elems(*b).to_set().contains(elem));
                        return true;
                    }
                    i += 1;
                }
                assert(!stack_elems(*b).contains(elem));
                false
            },
            InnerSmolSet::Heap(h) => h.contains(&elem),
        }
    }

    /// Inserts `elem` if no equal element is present.  Returns `true`
    /// exactly when the set did not already hold `elem`.  A set in
    /// stack mode whose element count would pass the capacity is
    /// promoted: every element moves into a fresh hash table, once and
    /// for all.
    pub fn insert(&mut self, elem: u64) -> (r: bool)
        ensures
            r == !old(self)@.contains(elem),
            final(self)@ == old(self)@.insert(elem),
            final(self).spec_cap() == old(self).spec_cap(),
            old(self).spec_mode() == SetMode::Heap ==> final(self).spec_mode() == SetMode::Heap,
            old(self).spec_mode() == SetMode::Stack ==> final(self).spec_mode() == (
            if old(self)@.contains(elem) || old(self)@.len() < old(self).spec_cap() {
                SetMode::Stack
            } else {
                SetMode::Heap
            }),
            final(self).spec_mode() == SetMode::Stack ==> final(self).spec_order() == (
            if r {
                old(self).spec_order().push(elem)
            } else {
                old(self).spec_order()
            }),
    {
        proof {
            use_type_invariant(&*self);
        }
        if self.contains(elem) {
            proof {
                assert(old(self)@.insert(elem) =~= self@);
            }
            return false;
        }
        let ghost old_elems = self.spec_order();
        let mut inner = InnerSmolSet::Stack(buf_new());
        std::mem::swap(&mut inner, &mut self.inner);
        match inner {
            InnerSmolSet::Stack(mut b) => {
                proof {
                    stack_elems(b).unique_seq_to_set();
                }
                let n = buf_len(&b);
                if n < self.cap {
                    buf_push(&mut b, elem);
                    proof {
                        lemma_push_to_set(old_elems, elem);
                    }
                    self.inner = InnerSmolSet::Stack(b);
                } else {
                    let mut h: HashSet<u64> = HashSet::new();
                    let mut i: usize = 0;
                    while i < n
                        invariant
                            i <= n,
                            n == stack_elems(b).len(),
                            h@ == stack_elems(b).take(i as int).to_set(),
                        decreases n - i,
                    {
                        let x = buf_get(&b, i);
                        h.insert(x);
                        proof {
                            assert(stack_elems(b).take(i + 1) =~= stack_elems(b).take(
                                i as int,
                            ).push(x));
                            lemma_push_to_set(stack_elems(b).take(i as int), x);
                        }
                        i += 1;
                    }
                    proof {
                        assert(stack_elems(b).take(n as int) =~= stack_elems(b));
                    }
                    h.insert(elem);
                    self.inner = InnerSmolSet::Heap(h);
                }
            },
            InnerSmolSet::Heap(mut h) => {
                h.insert(elem);
                self.inner = InnerSmolSet::Heap(h);
            },
        }
        true
    }

    /// Removes the element equal to `elem`, if present.  Returns
    /// `true` exactly when one was removed.  The representation never
    /// changes on removal: there is no demotion.
    pub fn remove(&mut self, elem: u64) -> (r: bool)
        ensures
            r == old(self)@.contains(elem),
            final(self)@ == old(self)@.remove(elem),
            final(self).spec_mode() == old(self).spec_mode(),
            final(self).spec_cap() == old(self).spec_cap(),
            final(self).spec_mode() == SetMode::Stack ==> final(self).spec_order() == old(
                self,
            ).spec_order().remove_value(elem),
    {
        proof {
            use_type_invariant(&*self);
        }
        let ghost old_elems = self.spec_order();
        let mut inner = InnerSmolSet::Stack(buf_new());
        std::mem::swap(&mut inner, &mut self.inner);
        match inner {
            InnerSmolSet::Stack(mut b) => {
                let n = buf_len(&b);
                let mut i: usize = 0;
                let mut found = false;
                while i < n && !found
                    invariant
                        i <= n,
                        n == stack_elems(b).len(),
                        !found ==> forall|j: int| 0 <= j < i ==> stack_elems(b)[j] != elem,
                        found ==> i < n && stack_elems(b)[i as int] == elem && forall|j: int|
                            0 <= j < i ==> stack_elems(b)[j] != elem,
                    decreases n - i + (if found {
                        0int
                    } else {
                        1int
                    }),
                {
                    if buf_get(&b, i) == elem {
                        found = true;
                    } else {
                        i += 1;
                    }
                }
                proof {
                    old_elems.index_of_first_ensures(elem);
                }
                if found {
                    buf_remove(&mut b, i);
                    proof {
                        lemma_remove_to_set(old_elems, i as int);
                        assert(old_elems.contains(elem));
                    }
                    self.inner = InnerSmolSet::Stack(b);
                    proof {
                        assert(old(self)@.contains(elem));
                    }
                    true
                } else {
                    proof {
                        assert(!old_elems.contains(elem));
                        assert(!old(self)@.contains(elem));
                        assert(old(self)@.remove(elem) =~= old(self)@);
                    }
                    self.inner = InnerSmolSet::Stack(b);
                    false
                }
            },
            InnerSmolSet::Heap(mut h) => {
                let r = h.remove(&elem);
                self.inner = InnerSmolSet::Heap(h);
                r
            },
        }
    }

    /// Returns the stored element equal to `elem` without removing it,
    /// or nothing when the set does not hold one.
    pub fn get(&self, elem: u64) -> (r: Option<u64>)
        ensures
            r == if self@.contains(elem) {
                Some(elem)
            } else {
                None::<u64>
            },
    {
        if self.contains(elem) {
            Some(elem)
        } else {
            None
        }
    }

    /// Removes and returns the stored element equal to `elem`, or
    /// nothing when the set does not hold one.  No demotion occurs.
    pub fn take(&mut self, elem: u64) -> (r: Option<u64>)
        ensures
            r == if old(self)@.contains(elem) {
                Some(elem)
            } else {
                None::<u64>
            },
            final(self)@ == old(self)@.remove(elem),
            final(self).spec_mode() == old(self).spec_mode(),
            final(self).spec_cap() == old(self).spec_cap(),
            final(self).spec_mode() == SetMode::Stack ==> final(self).spec_order() == old(
                self,
            ).spec_order().remove_value(elem),
    {
        if self.remove(elem) {
            Some(elem)
        } else {
            None
        }
    }

    /// Puts `elem` into the set.  When an equal element was present it
    /// is returned and the set is unchanged in content; otherwise
    /// `elem` is inserted (promoting to the heap when the capacity
    /// would be passed) and nothing is returned.
    pub fn replace(&mut self, elem: u64) -> (r: Option<u64>)
        ensures
            r == if old(self)@.contains(elem) {
                Some(elem)
            } else {
                None::<u64>
            },
            final(self)@ == old(self)@.insert(elem),
            final(self).spec_cap() == old(self).spec_cap(),
            old(self).spec_mode() == SetMode::Heap ==> final(self).spec_mode() == SetMode::Heap,
            old(self).spec_mode() == SetMode::Stack ==> final(self).spec_mode() == (
            if old(self)@.contains(elem) || old(self)@.len() < old(self).spec_cap() {
                SetMode::Stack
            } else {
                SetMode::Heap
            }),
            final(self).spec_mode() == SetMode::Stack ==> final(self).spec_order() == (
            if old(self)@.contains(elem) {
                old(self).spec_order()
            } else {
                old(self).spec_order().push(elem)
            }),
    {
        if self.contains(elem) {
            proof {
                assert(old(self)@.insert(elem) =~= old(self)@);
            }
            Some(elem)
        } else {
            let _ = self.insert(elem);
            None
        }
    }

    /// Empties the set in place.  The representation stays what it
    /// was: clearing a heap-mode set leaves it in heap mode.
    pub fn clear(&mut self)
        ensures
            final(self)@ == Set::<u64>::empty(),
            final(self).spec_mode() == old(self).spec_mode(),
            final(self).spec_cap() == old(self).spec_cap(),
            final(self).spec_order() == Seq::<u64>::empty(),
    {
        proof {
            use_type_invariant(&*self);
        }
        let mut inner = InnerSmolSet::Stack(buf_new());
        std::mem::swap(&mut inner, &mut self.inner);
        match inner {
            InnerSmolSet::Stack(mut b) => {
                buf_clear(&mut b);
                proof {
                    assert(stack_elems(b).to_set() =~= Set::<u64>::empty());
                }
                self.inner = InnerSmolSet::Stack(b);
            },
            InnerSmolSet::Heap(mut h) => {
                h.clear();
                self.inner = InnerSmolSet::Heap(h);
            },
        }
    }

    /// Returns a pass over the elements: each exactly once, in
    /// insertion order in stack mode and in an arbitrary order in
    /// heap mode.
    pub fn iter(&self) -> (it: SmolSetIter)
        ensures
            it.remaining().to_set() == self@,
            it.remaining().no_duplicates(),
            it.remaining().len() == self@.len(),
            self.spec_mode() == SetMode::Stack ==> it.remaining() == self.spec_order(),
    {
        SmolSetIter::new(self.elems_vec())
    }

    /// Empties the set and returns a pass over the removed elements:
    /// each element the set held, exactly once.  The emptied set keeps
    /// its representation.
    pub fn drain(&mut self) -> (it: SmallDrain)
        ensures
            it.remaining().to_set() == old(self)@,
            it.remaining().no_duplicates(),
            it.remaining().len() == old(self)@.len(),
            old(self).spec_mode() == SetMode::Stack ==> it.remaining() == old(self).spec_order(),
            final(self)@ == Set::<u64>::empty(),
            final(self).spec_mode() == old(self).spec_mode(),
            final(self).spec_cap() == old(self).spec_cap(),
            final(self).spec_order() == Seq::<u64>::empty(),
    {
        let v = self.elems_vec();
        self.clear();
        SmallDrain::new(v)
    }

    /// Returns a pass over the elements of `self` that are also in
    /// `other`, each exactly once.
    pub fn intersection(&self, other: &SmolSet) -> (it: SmallIntersection)
        ensures
            it.remaining().to_set() == self@.intersect(other@),
            it.remaining().no_duplicates(),
    {
        let v = self.elems_vec();
        let mut out: Vec<u64> = Vec::new();
        let mut i: usize = 0;
        while i < v.len()
            invariant
                i <= v@.len(),
                v@.no_duplicates(),
                v@.to_set() == self@,
                out@.to_set() == v@.take(i as int).to_set().intersect(other@),
                out@.no_duplicates(),
            decreases v@.len() - i,
        {
            let x = v[i];
            proof {
                lemma_take_next(v@, i as int);
            }
            if other.contains(x) {
                proof {
                    lemma_push_to_set(out@, x);
                    assert(!out@.to_set().contains(x));
                    assert(!out@.contains(x));
                    assert(out@.push(x).to_set() =~= v@.take(i + 1).to_set().intersect(other@));
                }
                out.push(x);
            } else {
                proof {
                    assert(out@.to_set() =~= v@.take(i + 1).to_set().intersect(other@));
                }
            }
            i += 1;
        }
        proof {
            assert(v@.take(v@.len() as int) =~= v@);
        }
        SmallIntersection::new(out)
    }

    /// Returns a pass over the union of the two sets: every element
    /// of `self`, then every element of `other` not already in
    /// `self`; each element exactly once.
    pub fn union(&self, other: &SmolSet) -> (it: SmallUnion)
        ensures
            it.remaining().to_set() == self@.union(other@),
            it.remaining().no_duplicates(),
    {
        let mut out = self.elems_vec();
        let w = other.elems_vec();
        let mut j: usize = 0;
        while j < w.len()
            invariant
                j <= w@.len(),
                w@.no_duplicates(),
                w@.to_set() == other@,
                out@.to_set() == self@.union(w@.take(j as int).to_set()),
                out@.no_duplicates(),
            decreases w@.len() - j,
        {
            let x = w[j];
            proof {
                lemma_take_next(w@, j as int);
            }
            if !self.contains(x) {
                proof {
                    lemma_push_to_set(out@, x);
                    assert(!out@.to_set().contains(x));
                    assert(!out@.contains(x));
                    assert(out@.push(x).to_set() =~= self@.union(w@.take(j + 1).to_set()));
                }
                out.push(x);
            } else {
                proof {
                    assert(out@.to_set() =~= self@.union(w@.take(j + 1).to_set()));
                }
            }
            j += 1;
        }
        proof {
            assert(w@.take(w@.len() as int) =~= w@);
        }
        SmallUnion::new(out)
    }

    /// Returns a pass over the elements of `self` that are not in
    /// `other`, each exactly once.
    pub fn difference(&self, other: &SmolSet) -> (it: SmallDifference)
        ensures
            it.remaining().to_set() == self@.difference(other@),
            it.remaining().no_duplicates(),
    {
        let v = self.elems_vec();
        let mut out: Vec<u64> = Vec::new();
        let mut i: usize = 0;
        while i < v.len()
            invariant
                i <= v@.len(),
                v@.no_duplicates(),
                v@.to_set() == self@,
                out@.to_set() == v@.take(i as int).to_set().difference(other@),
                out@.no_duplicates(),
            decreases v@.len() - i,
        {
            let x = v[i];
            proof {
                lemma_take_next(v@, i as int);
            }
            if !other.contains(x) {
                proof {
                    lemma_push_to_set(out@, x);
                    assert(!out@.to_set().contains(x));
                    assert(!out@.contains(x));
                    assert(out@.push(x).to_set() =~= v@.take(i + 1).to_set().difference(other@));
                }
                out.push(x);
            } else {
                proof {
                    assert(out@.to_set() =~= v@.take(i + 1).to_set().difference(other@));
                }
            }
            i += 1;
        }
        proof {
            assert(v@.take(v@.len() as int) =~= v@);
        }
        SmallDifference::new(out)
    }

    /// Returns a pass over the elements in exactly one of the two
    /// sets, each exactly once.
    pub fn symmetric_difference(&self, other: &SmolSet) -> (it: SmallSymmetricDifference)
        ensures
            it.remaining().to_set() == self@.difference(other@).union(other@.difference(self@)),
            it.remaining().no_duplicates(),
    {
        let v = self.elems_vec();
        let w = other.elems_vec();
        let mut out: Vec<u64> = Vec::new();
        let mut i: usize = 0;
        while i < v.len()
            invariant
                i <= v@.len(),
                v@.no_duplicates(),
                v@.to_set() == self@,
                out@.to_set() == v@.take(i as int).to_set().difference(other@),
                out@.no_duplicates(),
            decreases v@.len() - i,
        {
            let x = v[i];
            proof {
                lemma_take_next(v@, i as int);
            }
            if !other.contains(x) {
                proof {
                    lemma_push_to_set(out@, x);
                    assert(!out@.to_set().contains(x));
                    assert(!out@.contains(x));
                    assert(out@.push(x).to_set() =~= v@.take(i + 1).to_set().difference(other@));
                }
                out.push(x);
            } else {
                proof {
                    assert(out@.to_set() =~= v@.take(i + 1).to_set().difference(other@));
                }
            }
            i += 1;
        }
        proof {
            assert(v@.take(v@.len() as int) =~= v@);
        }
        let mut j: usize = 0;
        while j < w.len()
            invariant
                j <= w@.len(),
                w@.no_duplicates(),
                w@.to_set() == other@,
                out@.to_set() == self@.difference(other@).union(
                    w@.take(j as int).to_set().difference(self@),
                ),
                out@.no_duplicates(),
            decreases w@.len() - j,
        {
            let x = w[j];
            proof {
                lemma_take_next(w@, j as int);
            }
            if !self.contains(x) {
                proof {
                    lemma_push_to_set(out@, x);
                    assert(!out@.to_set().contains(x));
                    assert(!out@.contains(x));
                    assert(out@.push(x).to_set() =~= self@.difference(other@).union(
                        w@.take(j + 1).to_set().difference(self@),
                    ));
                }
                out.push(x);
            } else {
                proof {
                    assert(out@.to_set() =~= self@.difference(other@).union(
                        w@.take(j + 1).to_set().difference(self@),
                    ));
                }
            }
            j += 1;
        }
        proof {
            assert(w@.take(w@.len() as int) =~= w@);
        }
        SmallSymmetricDifference::new(out)
    }

    /// Keeps exactly the elements for which `f` returns `true`, in
    /// either representation, without changing the representation.
    pub fn retain<F: Fn(u64) -> bool>(&mut self, f: F)
        requires
            forall|x: u64| old(self)@.contains(x) ==> call_requires(f, (x,)),
        ensures
            forall|x: u64|
                final(self)@.contains(x) ==> old(self)@.contains(x) && call_ensures(
                    f,
                    (x,),
                    true,
                ),
            forall|x: u64|
                old(self)@.contains(x) && !final(self)@.contains(x) ==> call_ensures(
                    f,
                    (x,),
                    false,
                ),
            final(self).spec_mode() == old(self).spec_mode(),
            final(self).spec_cap() == old(self).spec_cap(),
    {
        proof {
            use_type_invariant(&*self);
            if self.spec_mode() == SetMode::Stack {
                self.spec_order().unique_seq_to_set();
            }
        }
        let v = self.elems_vec();
        self.clear();
        let mut i: usize = 0;
        while i < v.len()
            invariant
                i <= v@.len(),
                v@.no_duplicates(),
                v@.to_set() == old(self)@,
                old(self).spec_mode() == SetMode::Stack ==> old(self)@.len() <= old(
                    self,
                ).spec_cap(),
                forall|x: u64| old(self)@.contains(x) ==> call_requires(f, (x,)),
                forall|x: u64|
                    self@.contains(x) ==> v@.take(i as int).contains(x) && call_ensures(
                        f,
                        (x,),
                        true,
                    ),
                forall|j: int|
                    0 <= j < i && !self@.contains(v@[j]) ==> call_ensures(f, (v@[j],), false),
                self@.finite(),
                self@.len() <= i,
                self.spec_mode() == old(self).spec_mode(),
                self.spec_cap() == old(self).spec_cap(),
            decreases v@.len() - i,
        {
            let x = v[i];
            proof {
                assert(v@.contains(x));
                assert(v@.to_set().contains(x));
            }
            let keep = f(x);
            if keep {
                proof {
                    lemma_take_next(v@, i as int);
                    if self.spec_mode() == SetMode::Stack {
                        assert(self@.len() < old(self).spec_cap()) by {
                            assert(i < v@.len());
                            assert(v@.len() == old(self)@.len()) by {
                                v@.unique_seq_to_set();
                            }
                            assert(old(self)@.len() <= old(self).spec_cap());
                        }
                    }
                }
                let _ = self.insert(x);
                proof {
                    assert forall|y: u64|
                        self@.contains(y) implies v@.take(i + 1).contains(y) && call_ensures(
                        f,
                        (y,),
                        true,
                    ) by {
                        if y != x {
                            assert(v@.take(i as int).contains(y));
                            let k = choose|k: int|
                                0 <= k < i && v@.take(i as int)[k] == y;
                            assert(v@.take(i + 1)[k] == y);
                        } else {
                            assert(v@.take(i + 1)[i as int] == y);
                        }
                    }
                    assert(self@.len() <= i + 1) by {
                        assert(self@.subset_of(v@.take(i + 1).to_set()));
                        vstd::set_lib::lemma_len_subset(self@, v@.take(i + 1).to_set());
                        assert(v@.take(i + 1).to_set().len() <= i + 1) by {
                            v@.take(i + 1).lemma_cardinality_of_set();
                        }
                    }
                }
            } else {
                proof {
                    assert forall|y: u64|
                        self@.contains(y) implies v@.take(i + 1).contains(y) && call_ensures(
                        f,
                        (y,),
                        true,
                    ) by {
                        assert(v@.take(i as int).contains(y));
                        let k = choose|k: int| 0 <= k < i && v@.take(i as int)[k] == y;
                        assert(v@.take(i + 1)[k] == y);
                    }
                }
            }
            i += 1;
        }
        proof {
            assert forall|x: u64|
                old(self)@.contains(x) && !self@.contains(x) implies call_ensures(
                f,
                (x,),
                false,
            ) by {
                assert(v@.contains(x));
                let j = choose|j: int| 0 <= j < v@.len() && v@[j] == x;
            }
            assert forall|x: u64| self@.contains(x) implies old(self)@.contains(x) by {
                assert(v@.take(v@.len() as int) =~= v@);
                assert(v@.contains(x));
                assert(v@.to_set().contains(x));
            }
        }
    }

    /// Builds a set with capacity `cap` by inserting the elements of
    /// `elems` in turn, with the same uniqueness and promotion rules
    /// as repeated `insert` calls: the final representation depends
    /// only on how many distinct elements there are.
    pub fn from_vec(cap: usize, elems: Vec<u64>) -> (s: SmolSet)
        ensures
            s@ == elems@.to_set(),
            s.spec_cap() == cap,
            s.spec_mode() == (if elems@.to_set().len() <= cap {
                SetMode::Stack
            } else {
                SetMode::Heap
            }),
    {
        let mut s = SmolSet::new(cap);
        let mut i: usize = 0;
        while i < elems.len()
            invariant
                i <= elems@.len(),
                s@ == elems@.take(i as int).to_set(),
                s@.finite(),
                s.spec_cap() == cap,
                s.spec_mode() == (if s@.len() <= cap {
                    SetMode::Stack
                } else {
                    SetMode::Heap
                }),
            decreases elems@.len() - i,
        {
            let x = elems[i];
            proof {
                lemma_take_next(elems@, i as int);
            }
            let ghost pre = s@;
            let _ = s.insert(x);
            proof {
                if pre.contains(x) {
                    assert(pre.insert(x) =~= pre);
                }
                assert(pre.subset_of(s@));
                vstd::set_lib::lemma_len_subset(pre, s@);
            }
            i += 1;
        }
        proof {
            assert(elems@.take(elems@.len() as int) =~= elems@);
        }
        s
    }

    /// A snapshot of the elements as a vector: each element exactly
    /// once, in insertion order when the set is in stack mode and in
    /// an arbitrary order otherwise.
    pub(crate) fn elems_vec(&self) -> (v: Vec<u64>)
        ensures
            v@.to_set() == self@,
            v@.no_duplicates(),
            v@.len() == self@.len(),
            self.spec_mode() == SetMode::Stack ==> v@ == self.spec_order(),
    {
        proof {
            use_type_invariant(self);
        }
        match &self.inner {
            InnerSmolSet::Stack(b) => {
                let n = buf_len(b);
                let mut v: Vec<u64> = Vec::new();
                let mut i: usize = 0;
                while i < n
                    invariant
                        i <= n,
                        n == stack_elems(*b).len(),
                        v@ == stack_elems(*b).take(i as int),
                    decreases n - i,
                {
                    v.push(buf_get(b, i));
                    proof {
                        assert(stack_elems(*b).take(i + 1) =~= stack_elems(*b).take(i as int).push(
                            stack_elems(*b)[i as int],
                        ));
                    }
                    i += 1;
                }
                proof {
                    assert(stack_elems(*b).take(n as int) =~= stack_elems(*b));
                    stack_elems(*b).unique_seq_to_set();
                }
                v
            },
            InnerSmolSet::Heap(h) => hash_to_vec(h),
        }
    }
}

impl PartialEq for SmolSet {
    /// Two sets are equal exactly when they hold the same elements,
    /// whichever representation each side is using: same cardinality,
    /// and every element of one found in the other.
    fn eq(&self, other: &SmolSet) -> (r: bool) {
        if self.len() != other.len() {
            return false;
        }
        let v = self.elems_vec();
        let mut i: usize = 0;
        while i < v.len()
            invariant
                i <= v@.len(),
                v@.to_set() == self@,
                self@.finite(),
                other@.finite(),
                self@.len() == other@.len(),
                forall|j: int| 0 <= j < i ==> other@.contains(v@[j]),
            decreases v@.len() - i,
        {
            let x = v[i];
            if !other.contains(x) {
                proof {
                    assert(v@.contains(x));
                    assert(v@.to_set().contains(x));
                }
                return false;
            }
            i += 1;
        }
        proof {
            assert forall|y: u64| self@.contains(y) implies other@.contains(y) by {
                assert(v@.contains(y));
                let j = choose|j: int| 0 <= j < v@.len() && v@[j] == y;
            }
            assert(self@.subset_of(other@));
            assert forall|y: u64| other@.contains(y) implies self@.contains(y) by {
                if !self@.contains(y) {
                    self@.lemma_subset_not_in_lt(other@, y);
                }
            }
            assert(self@ =~= other@);
        }
        true
    }
}

impl vstd::std_specs::cmp::PartialEqSpecImpl for SmolSet {
    open spec fn obeys_eq_spec() -> bool {
        true
    }

    open spec fn eq_spec(&self, other: &SmolSet) -> bool {
        self@ == other@
    }
}

impl Clone for SmolSet {
    /// The clone holds the same elements in the same representation,
    /// with the same capacity and, in stack mode, the same order.
    fn clone(&self) -> (res: SmolSet)
        ensures
            res@ == self@,
            res.spec_mode() == self.spec_mode(),
            res.spec_cap() == self.spec_cap(),
            res.spec_order() == self.spec_order(),
    {
        proof {
            use_type_invariant(self);
        }
        match &self.inner {
            InnerSmolSet::Stack(b) => SmolSet { cap: self.cap, inner: InnerSmolSet::Stack(buf_clone(b)) },
            InnerSmolSet::Heap(h) => {
                let v = hash_to_vec(h);
                let mut h2: HashSet<u64> = HashSet::new();
                let mut i: usize = 0;
                while i < v.len()
                    invariant
                        i <= v@.len(),
                        v@.to_set() == h@,
                        h2@ == v@.take(i as int).to_set(),
                    decreases v@.len() - i,
                {
                    let x = v[i];
                    proof {
                        lemma_take_next(v@, i as int);
                    }
                    h2.insert(x);
                    i += 1;
                }
                proof {
                    assert(v@.take(v@.len() as int) =~= v@);
                }
                SmolSet { cap: self.cap, inner: InnerSmolSet::Heap(h2) }
            },
        }
    }
}

/// Reads a hash table out into a vector: each element exactly once,
/// in whatever order the table yields them.
fn hash_to_vec(h: &HashSet<u64>) -> (v: Vec<u64>)
    ensures
        v@.to_set() == h@,
        v@.no_duplicates(),
        v@.len() == h@.len(),
{
    let mut v: Vec<u64> = Vec::new();
    proof {
        assert(vstd::std_specs::hash::spec_hash_keys_iter(h).remaining().len() == 0
            ==> vstd::std_specs::hash::spec_hash_keys_iter(h).remaining().take(0).unref().to_set()
            =~= vstd::std_specs::hash::spec_hash_keys_iter(h).remaining().unref().to_set());
    }
    for x in it: h.iter()
        invariant
            v@ == it.seq().take(it.index()).unref(),
            it.seq().unref().to_set() == h@,
            it.seq().no_duplicates(),
            it.seq().len() == h@.len(),
            it.index() == it.seq().len() ==> v@.to_set() == h@ && v@.no_duplicates() && v@.len()
                == h@.len(),
    {
        proof {
            assert(it.seq().take(it.index() + 1).unref() =~= it.seq().take(
                it.index(),
            ).unref().push(*it.seq()[it.index()]));
        }
        v.push(*x);
        proof {
            assert(it.index() + 1 == it.seq().len() ==> it.seq().take(
                it.seq().len() as int,
            ).unref() =~= it.seq().unref());
            assert forall|k1: int, k2: int|
                0 <= k1 < k2 < it.seq().len() implies it.seq().unref()[k1] != it.seq().unref()[k2]
            by {
                assert(it.seq()[k1] != it.seq()[k2]);
            }
            assert(it.index() + 1 == it.seq().len() ==> it.seq().unref().no_duplicates());
            assert(it.index() + 1 == it.seq().len() ==> v@.no_duplicates());
            assert(it.index() + 1 == it.seq().len() ==> v@.to_set() =~= h@);
        }
    }
    v
}

} // verus!
