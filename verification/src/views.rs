//! One-shot forward passes over a snapshot of elements.
//!
//! Every view a [`crate::SmolSet`] hands out — iteration, drain and
//! the four set-algebra operations — is computed eagerly into a vector
//! at call time and then consumed through `next`, which yields each
//! element once and `None` from then on.

use vstd::prelude::*;

verus! {

/// Pass over the elements of a set, produced by `SmolSet::iter`.
pub struct SmolSetIter {
    data: Vec<u64>,
    index: usize,
}

impl SmolSetIter {
    /// The elements not yet yielded, in the order they will come.
    pub closed spec fn remaining(&self) -> Seq<u64> {
        self.data@.skip(self.index as int)
    }

    #[verifier::type_invariant]
    closed spec fn wf(self) -> bool {
        self.index <= self.data@.len()
    }

    pub(crate) fn new(data: Vec<u64>) -> (it: SmolSetIter)
        ensures
            it.remaining() == data@,
    {
        let it = SmolSetIter { data, index: 0 };
        proof {
            assert(it.remaining() =~= it.data@);
        }
        it
    }

    /// Yields the next element, or nothing once the pass is over.
    pub fn next(&mut self) -> (r: Option<u64>)
        ensures
            old(self).remaining().len() == 0 ==> r is None && final(self).remaining()
                == old(self).remaining(),
            old(self).remaining().len() > 0 ==> r == Some(old(self).remaining()[0])
                && final(self).remaining() == old(self).remaining().drop_first(),
    {
        proof {
            use_type_invariant(&*self);
        }
        if self.index < self.data.len() {
            let x = self.data[self.index];
            self.index = self.index + 1;
            proof {
                assert(final(self).remaining() =~= old(self).remaining().drop_first());
            }
            Some(x)
        } else {
            None
        }
    }
}

/// Pass over the elements removed by `SmolSet::drain`.
pub struct SmallDrain {
    data: Vec<u64>,
    index: usize,
}

impl SmallDrain {
    /// The elements not yet yielded, in the order they will come.
    pub closed spec fn remaining(&self) -> Seq<u64> {
        self.data@.skip(self.index as int)
    }

    #[verifier::type_invariant]
    closed spec fn wf(self) -> bool {
        self.index <= self.data@.len()
    }

    pub(crate) fn new(data: Vec<u64>) -> (it: SmallDrain)
        ensures
            it.remaining() == data@,
    {
        let it = SmallDrain { data, index: 0 };
        proof {
            assert(it.remaining() =~= it.data@);
        }
        it
    }

    /// Yields the next element, or nothing once the pass is over.
    pub fn next(&mut self) -> (r: Option<u64>)
        ensures
            old(self).remaining().len() == 0 ==> r is None && final(self).remaining()
                == old(self).remaining(),
            old(self).remaining().len() > 0 ==> r == Some(old(self).remaining()[0])
                && final(self).remaining() == old(self).remaining().drop_first(),
    {
        proof {
            use_type_invariant(&*self);
        }
        if self.index < self.data.len() {
            let x = self.data[self.index];
            self.index = self.index + 1;
            proof {
                assert(final(self).remaining() =~= old(self).remaining().drop_first());
            }
            Some(x)
        } else {
            None
        }
    }
}

/// Pass over the intersection of two sets.
pub struct SmallIntersection {
    data: Vec<u64>,
    index: usize,
}

impl SmallIntersection {
    /// The elements not yet yielded, in the order they will come.
    pub closed spec fn remaining(&self) -> Seq<u64> {
        self.data@.skip(self.index as int)
    }

    #[verifier::type_invariant]
    closed spec fn wf(self) -> bool {
        self.index <= self.data@.len()
    }

    pub(crate) fn new(data: Vec<u64>) -> (it: SmallIntersection)
        ensures
            it.remaining() == data@,
    {
        let it = SmallIntersection { data, index: 0 };
        proof {
            assert(it.remaining() =~= it.data@);
        }
        it
    }

    /// Yields the next element, or nothing once the pass is over.
    pub fn next(&mut self) -> (r: Option<u64>)
        ensures
            old(self).remaining().len() == 0 ==> r is None && final(self).remaining()
                == old(self).remaining(),
            old(self).remaining().len() > 0 ==> r == Some(old(self).remaining()[0])
                && final(self).remaining() == old(self).remaining().drop_first(),
    {
        proof {
            use_type_invariant(&*self);
        }
        if self.index < self.data.len() {
            let x = self.data[self.index];
            self.index = self.index + 1;
            proof {
                assert(final(self).remaining() =~= old(self).remaining().drop_first());
            }
            Some(x)
        } else {
            None
        }
    }
}

/// Pass over the union of two sets.
pub struct SmallUnion {
    data: Vec<u64>,
    index: usize,
}

impl SmallUnion {
    /// The elements not yet yielded, in the order they will come.
    pub closed spec fn remaining(&self) -> Seq<u64> {
        self.data@.skip(self.index as int)
    }

    #[verifier::type_invariant]
    closed spec fn wf(self) -> bool {
        self.index <= self.data@.len()
    }

    pub(crate) fn new(data: Vec<u64>) -> (it: SmallUnion)
        ensures
            it.remaining() == data@,
    {
        let it = SmallUnion { data, index: 0 };
        proof {
            assert(it.remaining() =~= it.data@);
        }
        it
    }

    /// Yields the next element, or nothing once the pass is over.
    pub fn next(&mut self) -> (r: Option<u64>)
        ensures
            old(self).remaining().len() == 0 ==> r is None && final(self).remaining()
                == old(self).remaining(),
            old(self).remaining().len() > 0 ==> r == Some(old(self).remaining()[0])
                && final(self).remaining() == old(self).remaining().drop_first(),
    {
        proof {
            use_type_invariant(&*self);
        }
        if self.index < self.data.len() {
            let x = self.data[self.index];
            self.index = self.index + 1;
            proof {
                assert(final(self).remaining() =~= old(self).remaining().drop_first());
            }
            Some(x)
        } else {
            None
        }
    }
}

/// Pass over the difference of two sets.
pub struct SmallDifference {
    data: Vec<u64>,
    index: usize,
}

impl SmallDifference {
    /// The elements not yet yielded, in the order they will come.
    pub closed spec fn remaining(&self) -> Seq<u64> {
        self.data@.skip(self.index as int)
    }

    #[verifier::type_invariant]
    closed spec fn wf(self) -> bool {
        self.index <= self.data@.len()
    }

    pub(crate) fn new(data: Vec<u64>) -> (it: SmallDifference)
        ensures
            it.remaining() == data@,
    {
        let it = SmallDifference { data, index: 0 };
        proof {
            assert(it.remaining() =~= it.data@);
        }
        it
    }

    /// Yields the next element, or nothing once the pass is over.
    pub fn next(&mut self) -> (r: Option<u64>)
        ensures
            old(self).remaining().len() == 0 ==> r is None && final(self).remaining()
                == old(self).remaining(),
            old(self).remaining().len() > 0 ==> r == Some(old(self).remaining()[0])
                && final(self).remaining() == old(self).remaining().drop_first(),
    {
        proof {
            use_type_invariant(&*self);
        }
        if self.index < self.data.len() {
            let x = self.data[self.index];
            self.index = self.index + 1;
            proof {
                assert(final(self).remaining() =~= old(self).remaining().drop_first());
            }
            Some(x)
        } else {
            None
        }
    }
}

/// Pass over the symmetric difference of two sets.
pub struct SmallSymmetricDifference {
    data: Vec<u64>,
    index: usize,
}

impl SmallSymmetricDifference {
    /// The elements not yet yielded, in the order they will come.
    pub closed spec fn remaining(&self) -> Seq<u64> {
        self.data@.skip(self.index as int)
    }

    #[verifier::type_invariant]
    closed spec fn wf(self) -> bool {
        self.index <= self.data@.len()
    }

    pub(crate) fn new(data: Vec<u64>) -> (it: SmallSymmetricDifference)
        ensures
            it.remaining() == data@,
    {
        let it = SmallSymmetricDifference { data, index: 0 };
        proof {
            assert(it.remaining() =~= it.data@);
        }
        it
    }

    /// Yields the next element, or nothing once the pass is over.
    pub fn next(&mut self) -> (r: Option<u64>)
        ensures
            old(self).remaining().len() == 0 ==> r is None && final(self).remaining()
                == old(self).remaining(),
            old(self).remaining().len() > 0 ==> r == Some(old(self).remaining()[0])
                && final(self).remaining() == old(self).remaining().drop_first(),
    {
        proof {
            use_type_invariant(&*self);
        }
        if self.index < self.data.len() {
            let x = self.data[self.index];
            self.index = self.index + 1;
            proof {
                assert(final(self).remaining() =~= old(self).remaining().drop_first());
            }
            Some(x)
        } else {
            None
        }
    }
}

} // verus!
