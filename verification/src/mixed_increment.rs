//! A mixed-radix counter: a row of digits, each with its own base, stepped
//! through all combinations.  The demo layer drives nested parameter scans
//! with it.
use crate::vec_extensions::copy_vec;
use vstd::prelude::*;

verus! {

/// A mixed-radix counter.  Digit `i` runs below `bases[i]`; stepping past
/// the last combination marks the counter done.
pub struct MixedIncremenet {
    bases: Vec<usize>,
    indexes: Vec<usize>,
    done: bool,
}

/// One mixed-radix increment, working from digit `i` leftwards: bump the
/// digit, and on overflow zero it and carry.  Returns the new digits and
/// whether the carry ran off the left end.
pub open spec fn spec_inc(bases: Seq<usize>, idx: Seq<usize>, i: int) -> (Seq<usize>, bool)
    decreases i + 1,
{
    if i < 0 || i >= idx.len() || i >= bases.len() {
        (idx, false)
    } else if idx[i] + 1 < bases[i] {
        (idx.update(i, (idx[i] + 1) as usize), false)
    } else {
        let zeroed = idx.update(i, 0usize);
        if i == 0 {
            (zeroed, true)
        } else {
            spec_inc(bases, zeroed, i - 1)
        }
    }
}

impl MixedIncremenet {
    pub closed spec fn spec_bases(self) -> Seq<usize> {
        self.bases@
    }

    pub closed spec fn spec_indexes(self) -> Seq<usize> {
        self.indexes@
    }

    pub closed spec fn spec_done(self) -> bool {
        self.done
    }

    /// Each digit stays below its base, or is zero where the base itself is
    /// zero.
    pub open spec fn wf(self) -> bool {
        &&& self.spec_bases().len() == self.spec_indexes().len()
        &&& forall|i: int|
            0 <= i < self.spec_indexes().len() ==> (#[trigger] self.spec_indexes()[i] == 0
                || self.spec_indexes()[i] < self.spec_bases()[i])
    }

    /// A counter over the given bases, all digits zero.
    pub fn new(bases: Vec<usize>) -> (r: MixedIncremenet)
        ensures
            r.wf(),
            r.spec_bases() == bases@,
            r.spec_indexes().len() == bases@.len(),
            forall|i: int| 0 <= i < bases@.len() ==> #[trigger] r.spec_indexes()[i] == 0,
            !r.spec_done(),
    {
        let mut indexes: Vec<usize> = Vec::new();
        let n: usize = bases.len();
        let mut i: usize = 0;
        while i < n
            invariant
                i <= n,
                indexes@.len() == i,
                forall|j: int| 0 <= j < i ==> #[trigger] indexes@[j] == 0,
            decreases n - i,
        {
            indexes.push(0);
            i = i + 1;
        }
        MixedIncremenet { bases, indexes, done: false }
    }

    /// A counter with `length` digits, all of base `base`.
    pub fn new_uniform(base: usize, length: usize) -> (r: MixedIncremenet)
        ensures
            r.wf(),
            r.spec_bases().len() == length,
            forall|i: int| 0 <= i < length ==> #[trigger] r.spec_bases()[i] == base,
            forall|i: int| 0 <= i < length ==> #[trigger] r.spec_indexes()[i] == 0,
            !r.spec_done(),
    {
        let mut bases: Vec<usize> = Vec::new();
        let mut i: usize = 0;
        while i < length
            invariant
                i <= length,
                bases@.len() == i,
                forall|j: int| 0 <= j < i ==> #[trigger] bases@[j] == base,
            decreases length - i,
        {
            bases.push(base);
            i = i + 1;
        }
        MixedIncremenet::new(bases)
    }

    /// Steps the rightmost nonzero digit down by one and reports the new
    /// digits; once every digit is zero there is nothing left to undo and
    /// the counter stays put.
    pub fn decrement(&mut self) -> (r: Option<Vec<usize>>)
        requires
            old(self).wf(),
        ensures
            final(self).wf(),
            final(self).spec_bases() == old(self).spec_bases(),
            final(self).spec_done() == old(self).spec_done(),
            (forall|j: int|
                0 <= j < old(self).spec_indexes().len() ==> #[trigger] old(self).spec_indexes()[j]
                    == 0) ==> (r is None && final(self).spec_indexes() == old(
                self,
            ).spec_indexes()),
            (exists|j: int|
                0 <= j < old(self).spec_indexes().len() && #[trigger] old(self).spec_indexes()[j]
                    > 0) ==> ({
                let k = choose|k: int|
                    0 <= k < old(self).spec_indexes().len() && old(self).spec_indexes()[k] > 0
                        && (forall|m: int|
                        k < m < old(self).spec_indexes().len()
                            ==> #[trigger] old(self).spec_indexes()[m] == 0);
                &&& final(self).spec_indexes() == old(self).spec_indexes().update(
                    k,
                    (old(self).spec_indexes()[k] - 1) as usize,
                )
                &&& r matches Some(v) && v@ == final(self).spec_indexes()
            }),
    {
        let ghost orig = self.indexes@;
        let mut i: usize = self.indexes.len();
        while i > 0
            invariant
                self.bases@ == old(self).bases@,
                self.done == old(self).done,
                self.indexes@ == orig,
                orig == old(self).indexes@,
                orig.len() == self.bases@.len(),
                forall|j: int| 0 <= j < orig.len() ==> (#[trigger] orig[j] == 0 || orig[j] < self.bases@[j]),
                i <= orig.len(),
                forall|m: int| i <= m < orig.len() ==> #[trigger] orig[m] == 0,
            decreases i,
        {
            i = i - 1;
            if self.indexes[i] >= 1 {
                let v: usize = self.indexes[i] - 1;
                self.indexes[i] = v;
                let r = copy_vec(&self.indexes);
                proof {
                    let idxs = old(self).spec_indexes();
                    assert(idxs == orig);
                    assert(idxs[i as int] > 0);
                    assert(forall|m: int| i < m < idxs.len() ==> #[trigger] idxs[m] == 0);
                    let k = choose|k: int|
                        0 <= k < old(self).spec_indexes().len() && old(self).spec_indexes()[k] > 0
                            && (forall|m: int|
                            k < m < old(self).spec_indexes().len()
                                ==> #[trigger] old(self).spec_indexes()[m] == 0);
                    if k != i as int {
                        if k < i as int {
                            assert(idxs[i as int] == 0);
                        } else {
                            assert(idxs[k] == 0);
                        }
                    }
                    assert(k == i as int);
                }
                return Some(r);
            } else {
                self.indexes[i] = 0;
                proof {
                    assert(self.indexes@ =~= orig);
                }
            }
        }
        None
    }

    /// Steps the counter to the next combination and hands back the one it
    /// was at, or nothing once every combination has been handed out: the
    /// rightmost digit is bumped and overflow carries leftward, and a
    /// carry off the left end marks the counter done.
    pub fn next(&mut self) -> (r: Option<Vec<usize>>)
        requires
            old(self).wf(),
        ensures
            final(self).wf(),
            final(self).spec_bases() == old(self).spec_bases(),
            old(self).spec_done() ==> r is None && *final(self) == *old(self),
            !old(self).spec_done() ==> ({
                let (stepped, wrapped) = spec_inc(
                    old(self).spec_bases(),
                    old(self).spec_indexes(),
                    old(self).spec_indexes().len() - 1,
                );
                &&& (r matches Some(v) && v@ == old(self).spec_indexes())
                &&& final(self).spec_indexes() == stepped
                &&& final(self).spec_done() == wrapped
            }),
    {
        if self.done {
            return None;
        }
        let items = copy_vec(&self.indexes);
        let ghost b0 = self.bases@;
        let ghost idx0 = self.indexes@;
        let ghost goal = spec_inc(b0, idx0, idx0.len() - 1);
        let mut i: usize = self.indexes.len();
        let mut stopped: bool = false;
        while i > 0 && !stopped
            invariant
                self.bases@ == b0,
                self.indexes@.len() == idx0.len(),
                b0.len() == idx0.len(),
                goal == spec_inc(b0, idx0, idx0.len() - 1),
                i <= idx0.len(),
                forall|j: int|
                    0 <= j < self.indexes@.len() ==> (#[trigger] self.indexes@[j] == 0
                        || self.indexes@[j] < b0[j]),
                !stopped && !self.done ==> goal == spec_inc(b0, self.indexes@, i - 1),
                (stopped || self.done) ==> goal == (self.indexes@, self.done),
                stopped ==> !self.done,
                self.done ==> i == 0,
            decreases i,
        {
            i = i - 1;
            let ghost idx_cur = self.indexes@;
            let bump: usize = self.indexes[i] + 1;
            if bump < self.bases[i] {
                self.indexes[i] = bump;
                stopped = true;
                proof {
                    assert(self.indexes@ == idx_cur.update(i as int, bump));
                    assert(goal == (self.indexes@, false));
                }
            } else {
                self.indexes[i] = 0;
                proof {
                    assert(self.indexes@ == idx_cur.update(i as int, 0usize));
                }
                if i == 0 {
                    self.done = true;
                    proof {
                        assert(goal == (self.indexes@, true));
                    }
                } else {
                    proof {
                        assert(goal == spec_inc(b0, self.indexes@, i - 1));
                    }
                }
            }
        }
        Some(items)
    }
}

} // verus!
