//! Small vector conveniences shared by the algorithms: indexing from the
//! back, plain-value copies, element-order lemmas, and the lexicographic
//! sort that the hull construction starts from.
use crate::lexicographic2d::{pt_xy_le, pt_xy_less, pt_xy_lt, sorted_xy};
use crate::point2d::Point2d;
use vstd::prelude::*;

verus! {

/// Exchanging two positions of a sequence leaves its multiset of elements
/// unchanged.
pub proof fn lemma_swap_multiset<A>(s: Seq<A>, x: int, y: int)
    requires
        0 <= x < s.len(),
        0 <= y < s.len(),
    ensures
        s.update(x, s[y]).update(y, s[x]).to_multiset() == s.to_multiset(),
{
    broadcast use vstd::multiset::group_multiset_axioms;
    broadcast use vstd::seq_lib::group_to_multiset_ensures;

    let s1 = s.update(x, s[y]);
    vstd::seq_lib::to_multiset_update(s, x, s[y]);
    vstd::seq_lib::to_multiset_update(s1, y, s[x]);
    if x == y {
        assert(s1.update(y, s[x]) =~= s);
        assert(s1.update(y, s[x]).to_multiset() =~= s.to_multiset());
    } else {
        assert(s1[y] == s[y]);
        assert(s.to_multiset().contains(s[x]));
        assert(s1.update(y, s[x]).to_multiset() =~= s.to_multiset());
    }
}

/// Inserting an element anywhere in a sequence inserts it into the
/// sequence's multiset.
pub proof fn lemma_insert_multiset<A>(s: Seq<A>, i: int, a: A)
    requires
        0 <= i <= s.len(),
    ensures
        s.insert(i, a).to_multiset() == s.to_multiset().insert(a),
{
    broadcast use vstd::multiset::group_multiset_axioms;
    broadcast use vstd::seq_lib::group_to_multiset_ensures;

    assert(s.insert(i, a) =~= s.take(i).push(a) + s.skip(i));
    assert(s =~= s.take(i) + s.skip(i));
    vstd::seq_lib::lemma_multiset_commutative(s.take(i).push(a), s.skip(i));
    vstd::seq_lib::lemma_multiset_commutative(s.take(i), s.skip(i));
    assert(s.take(i).push(a).to_multiset() =~= s.take(i).to_multiset().insert(a));
    assert(s.insert(i, a).to_multiset() =~= s.to_multiset().insert(a));
}

/// One step of `filter`: appending an element keeps it exactly when the
/// predicate accepts it.
pub proof fn lemma_filter_push<A>(s: Seq<A>, pred: spec_fn(A) -> bool, a: A)
    ensures
        s.push(a).filter(pred) == (if pred(a) {
            s.filter(pred).push(a)
        } else {
            s.filter(pred)
        }),
{
    reveal(Seq::filter);
    assert(s.push(a).drop_last() =~= s);
    assert(s.push(a).last() == a);
}

/// A sequence splits, as a multiset, into the part a predicate keeps and
/// the part its negation keeps.
pub proof fn lemma_filter_partition<A>(s: Seq<A>, pred: spec_fn(A) -> bool, negp: spec_fn(A) -> bool)
    requires
        forall|x: A| #[trigger] negp(x) <==> !pred(x),
    ensures
        s.to_multiset() == s.filter(pred).to_multiset().add(s.filter(negp).to_multiset()),
    decreases s.len(),
{
    broadcast use vstd::multiset::group_multiset_axioms;
    broadcast use vstd::seq_lib::group_to_multiset_ensures;

    reveal(Seq::filter);
    if s.len() == 0 {
        assert(s.to_multiset() =~= s.filter(pred).to_multiset().add(s.filter(negp).to_multiset()));
    } else {
        lemma_filter_partition(s.drop_last(), pred, negp);
        let a = s.last();
        assert(s =~= s.drop_last().push(a));
        s.drop_last().to_multiset_ensures();
        s.drop_last().filter(pred).to_multiset_ensures();
        s.drop_last().filter(negp).to_multiset_ensures();
        assert(negp(a) <==> !pred(a));
        assert(s.to_multiset() =~= s.filter(pred).to_multiset().add(s.filter(negp).to_multiset()));
    }
}

/// Indexing from the back of a container: `from_last(0)` is the last element.
pub trait VecExtensions<T> {
    /// The elements of the container, in order.
    spec fn elems(&self) -> Seq<T>;

    /// Returns the element `index` places before the end; indexing past the
    /// front is excluded by contract.
    fn from_last(&self, index: usize) -> (r: T)
        requires
            index < self.elems().len(),
        ensures
            r == self.elems()[self.elems().len() - 1 - index],
    ;
}

impl<T: Copy> VecExtensions<T> for Vec<T> {
    open spec fn elems(&self) -> Seq<T> {
        self@
    }

    fn from_last(&self, index: usize) -> (r: T) {
        self[self.len() - 1 - index]
    }
}

/// An element-wise copy of a vector of plain values.
pub fn copy_vec<T: Copy>(v: &Vec<T>) -> (r: Vec<T>)
    ensures
        r@ == v@,
{
    let mut r: Vec<T> = Vec::new();
    let n: usize = v.len();
    let mut i: usize = 0;
    while i < n
        invariant
            n == v@.len(),
            i <= n,
            r@ == v@.take(i as int),
        decreases n - i,
    {
        r.push(v[i]);
        proof {
            assert(r@ =~= v@.take(i + 1));
        }
        i = i + 1;
    }
    proof {
        assert(r@ =~= v@);
    }
    r
}

/// Sorting a vector of points into the hull order.
pub trait VecPointExtesions {
    /// The elements of the container, in order.
    spec fn pts(&self) -> Seq<Point2d>;

    /// Reorders the elements ascending by `x`, ties by `y`, keeping the
    /// multiset of elements.
    fn sort_lexicographic(&mut self)
        ensures
            final(self).pts().len() == old(self).pts().len(),
            final(self).pts().to_multiset() == old(self).pts().to_multiset(),
            sorted_xy(final(self).pts()),
    ;
}

impl VecPointExtesions for Vec<Point2d> {
    open spec fn pts(&self) -> Seq<Point2d> {
        self@
    }

    fn sort_lexicographic(&mut self) {
        broadcast use vstd::multiset::group_multiset_axioms;
        broadcast use vstd::seq_lib::group_to_multiset_ensures;

        let n: usize = self.len();
        let mut out: Vec<Point2d> = Vec::new();
        let mut idx: usize = 0;
        while idx < n
            invariant
                n == self@.len(),
                self@ == old(self)@,
                idx <= n,
                out@.len() == idx,
                out@.to_multiset() == self@.take(idx as int).to_multiset(),
                sorted_xy(out@),
            decreases n - idx,
        {
            let p: Point2d = self[idx];
            let mut pos: usize = 0;
            while pos < out.len() && !pt_xy_less(&p, &out[pos])
                invariant
                    pos <= out@.len(),
                    sorted_xy(out@),
                    forall|k: int| 0 <= k < pos ==> !pt_xy_lt(p, #[trigger] out@[k]),
                decreases out@.len() - pos,
            {
                pos = pos + 1;
            }
            let ghost before = out@;
            out.insert(pos, p);
            proof {
                lemma_insert_multiset(before, pos as int, p);
                self@.take(idx as int).to_multiset_ensures();
                assert(self@.take(idx + 1) =~= self@.take(idx as int).push(p));
                assert(self@.take(idx as int).push(p).to_multiset() =~= self@.take(
                    idx as int,
                ).to_multiset().insert(p));
                assert(self@.take(idx + 1).to_multiset() =~= self@.take(
                    idx as int,
                ).to_multiset().insert(p));
                assert forall|i: int, j: int|
                    0 <= i < j < out@.len() implies pt_xy_le(#[trigger] out@[i], #[trigger] out@[j]) by {
                    if j < pos {
                        assert(out@[i] == before[i] && out@[j] == before[j]);
                    } else if i > pos {
                        assert(out@[i] == before[i - 1] && out@[j] == before[j - 1]);
                    } else if i < pos && j == pos {
                        assert(out@[i] == before[i]);
                        assert(!pt_xy_lt(p, before[i]));
                    } else if i == pos && j > pos {
                        assert(out@[j] == before[j - 1]);
                        if pos < before.len() {
                            assert(pt_xy_lt(p, before[pos as int]));
                            assert(pt_xy_le(before[pos as int], before[j - 1]) || pos == j - 1);
                        }
                    } else if i < pos && j > pos {
                        assert(out@[i] == before[i] && out@[j] == before[j - 1]);
                        assert(!pt_xy_lt(p, before[i]));
                        if pos < before.len() {
                            assert(pt_xy_lt(p, before[pos as int]));
                        }
                        assert(pt_xy_le(before[i], before[j - 1]) || i == j - 1);
                    }
                }
            }
            idx = idx + 1;
        }
        proof {
            assert(self@.take(n as int) =~= self@);
        }
        *self = out;
    }
}

} // verus!
