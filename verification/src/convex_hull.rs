//! Monotone-chain convex hull: sort the points, then build the upper and
//! lower boundary chains, discarding every vertex that fails the right-turn
//! test.  The result is pinned to the functional description `hull_spec`,
//! so the hull depends only on the sorted point sequence.
use crate::lexicographic2d::{pt_xy_le, sorted_xy};
use crate::point2d::Point2d;
use crate::polygon2d::Polygon2D;
use crate::vec_extensions::{VecExtensions, VecPointExtesions};
use vstd::prelude::*;

verus! {

/// Walking `a`, `b`, `c` bends clockwise in screen coordinates: the cross
/// product of the displacements from `a` is negative.
pub open spec fn right_turn_spec(a: Point2d, b: Point2d, c: Point2d) -> bool {
    (b.x - a.x) * (c.y - a.y) - (b.y - a.y) * (c.x - a.x) < 0
}

/// Every point of the sequence is within the supported range.
pub open spec fn pts_in_range(s: Seq<Point2d>) -> bool {
    forall|i: int| 0 <= i < s.len() ==> (#[trigger] s[i]).in_range()
}

/// One step of chain building: append `p`, after discarding trailing
/// vertices while the last two and `p` do not bend clockwise.
pub open spec fn chain_add(chain: Seq<Point2d>, p: Point2d) -> Seq<Point2d>
    decreases chain.len(),
{
    if chain.len() < 2 {
        chain.push(p)
    } else if right_turn_spec(chain[chain.len() - 2], chain[chain.len() - 1], p) {
        chain.push(p)
    } else {
        chain_add(chain.drop_last(), p)
    }
}

/// Chain building folded over a run of points.
pub open spec fn chain_fold(chain: Seq<Point2d>, rest: Seq<Point2d>) -> Seq<Point2d>
    decreases rest.len(),
{
    if rest.len() == 0 {
        chain
    } else {
        chain_fold(chain_add(chain, rest[0]), rest.drop_first())
    }
}

/// The hull boundary of a sorted point sequence of length at least three:
/// the upper chain over the points in sort order, then the lower chain over
/// them in reverse, with the lower chain's duplicated first and last
/// vertices dropped.
pub open spec fn hull_spec(s: Seq<Point2d>) -> Seq<Point2d> {
    let n = s.len() as int;
    let upper = chain_fold(seq![s[0], s[1]], s.skip(2));
    let lower = chain_fold(seq![s[n - 1], s[n - 2]], s.take(n - 2).reverse());
    upper + lower.drop_first().drop_last()
}

/// Appending one more point to the run folds as one more chain step.
proof fn lemma_chain_fold_push(chain: Seq<Point2d>, rest: Seq<Point2d>, p: Point2d)
    ensures
        chain_fold(chain, rest.push(p)) == chain_add(chain_fold(chain, rest), p),
    decreases rest.len(),
{
    if rest.len() == 0 {
        assert(rest.push(p)[0] == p);
        assert(rest.push(p).drop_first() =~= Seq::<Point2d>::empty());
        assert(chain_fold(chain, rest.push(p)) == chain_fold(
            chain_add(chain, p),
            Seq::<Point2d>::empty(),
        ));
        assert(chain_fold(chain_add(chain, p), Seq::<Point2d>::empty()) == chain_add(chain, p));
        assert(chain_fold(chain, rest) == chain);
    } else {
        assert(rest.push(p)[0] == rest[0]);
        assert(rest.push(p).drop_first() =~= rest.drop_first().push(p));
        lemma_chain_fold_push(chain_add(chain, rest[0]), rest.drop_first(), p);
        assert(chain_fold(chain, rest.push(p)) == chain_fold(
            chain_add(chain, rest[0]),
            rest.drop_first().push(p),
        ));
        assert(chain_fold(chain, rest) == chain_fold(chain_add(chain, rest[0]), rest.drop_first()));
    }
}

/// A chain step keeps at least two vertices and adds at most one.
proof fn lemma_chain_add_len(chain: Seq<Point2d>, p: Point2d)
    requires
        chain.len() >= 2,
    ensures
        2 <= chain_add(chain, p).len() <= chain.len() + 1,
    decreases chain.len(),
{
    if right_turn_spec(chain[chain.len() - 2], chain[chain.len() - 1], p) {
    } else if chain.len() == 2 {
        assert(chain_add(chain, p) == chain_add(chain.drop_last(), p));
        assert(chain.drop_last().len() == 1);
        assert(chain_add(chain.drop_last(), p) == chain.drop_last().push(p));
    } else {
        lemma_chain_add_len(chain.drop_last(), p);
    }
}

/// A fold over any run keeps at least two vertices.
proof fn lemma_chain_fold_len(chain: Seq<Point2d>, rest: Seq<Point2d>)
    requires
        chain.len() >= 2,
    ensures
        chain_fold(chain, rest).len() >= 2,
    decreases rest.len(),
{
    if rest.len() > 0 {
        lemma_chain_add_len(chain, rest[0]);
        lemma_chain_fold_len(chain_add(chain, rest[0]), rest.drop_first());
    }
}

/// Chain steps introduce no new points.
proof fn lemma_chain_add_subset(chain: Seq<Point2d>, p: Point2d, x: Point2d)
    requires
        chain_add(chain, p).contains(x),
    ensures
        chain.contains(x) || x == p,
    decreases chain.len(),
{
    if chain.len() < 2 || right_turn_spec(chain[chain.len() - 2], chain[chain.len() - 1], p) {
        if x != p {
            let k = choose|k: int| 0 <= k < chain.push(p).len() && chain.push(p)[k] == x;
            assert(chain[k] == x);
        }
    } else {
        lemma_chain_add_subset(chain.drop_last(), p, x);
        if chain.drop_last().contains(x) {
            let k = choose|k: int|
                0 <= k < chain.drop_last().len() && chain.drop_last()[k] == x;
            assert(chain[k] == x);
        }
    }
}

/// Folding introduces no new points.
proof fn lemma_chain_fold_subset(chain: Seq<Point2d>, rest: Seq<Point2d>, x: Point2d)
    requires
        chain_fold(chain, rest).contains(x),
    ensures
        chain.contains(x) || rest.contains(x),
    decreases rest.len(),
{
    if rest.len() > 0 {
        lemma_chain_fold_subset(chain_add(chain, rest[0]), rest.drop_first(), x);
        if chain_add(chain, rest[0]).contains(x) {
            lemma_chain_add_subset(chain, rest[0], x);
        } else {
            let k = choose|k: int|
                0 <= k < rest.drop_first().len() && rest.drop_first()[k] == x;
            assert(rest[k + 1] == x);
        }
    }
}

/// Every vertex of the hull of a sorted sequence is one of its points.
pub proof fn lemma_hull_subset(s: Seq<Point2d>, x: Point2d)
    requires
        s.len() >= 3,
        hull_spec(s).contains(x),
    ensures
        s.contains(x),
{
    let n = s.len() as int;
    let upper = chain_fold(seq![s[0], s[1]], s.skip(2));
    let lower = chain_fold(seq![s[n - 1], s[n - 2]], s.take(n - 2).reverse());
    let k = choose|k: int| 0 <= k < hull_spec(s).len() && hull_spec(s)[k] == x;
    if k < upper.len() {
        assert(upper.contains(x));
        lemma_chain_fold_subset(seq![s[0], s[1]], s.skip(2), x);
        if seq![s[0], s[1]].contains(x) {
        } else {
            let j = choose|j: int| 0 <= j < s.skip(2).len() && s.skip(2)[j] == x;
            assert(s[j + 2] == x);
        }
    } else {
        lemma_chain_fold_len(seq![s[n - 1], s[n - 2]], s.take(n - 2).reverse());
        assert(lower.drop_first().drop_last()[k - upper.len()] == lower[k - upper.len() + 1]);
        assert(lower.contains(lower[k - upper.len() + 1]));
        lemma_chain_fold_subset(seq![s[n - 1], s[n - 2]], s.take(n - 2).reverse(), x);
        if seq![s[n - 1], s[n - 2]].contains(x) {
        } else {
            let rev = s.take(n - 2).reverse();
            let j = choose|j: int| 0 <= j < rev.len() && #[trigger] rev[j] == x;
            assert(s.take(n - 2)[n - 3 - j] == x);
        }
    }
}

/// The hull is a function of the multiset of input points alone: two sorted
/// sequences holding the same points are equal, and so are their hulls.
/// Hull construction sorts first, so permuting its input cannot change the
/// boundary it returns.
pub proof fn lemma_hull_permutation_invariant(s1: Seq<Point2d>, s2: Seq<Point2d>)
    requires
        sorted_xy(s1),
        sorted_xy(s2),
        s1.to_multiset() == s2.to_multiset(),
    ensures
        s1 == s2,
        hull_spec(s1) == hull_spec(s2),
{
    let leq = |a: Point2d, b: Point2d| pt_xy_le(a, b);
    assert(vstd::relations::total_ordering(leq)) by {
        assert forall|a: Point2d, b: Point2d| #[trigger] leq(a, b) && #[trigger] leq(b, a)
            implies a == b by {
            if a != b {
                assert(false);
            }
        }
        assert forall|a: Point2d, b: Point2d| #[trigger] leq(a, b) || #[trigger] leq(b, a) by {
            if a.x < b.x || (a.x == b.x && a.y < b.y) {
            } else if b.x < a.x || (b.x == a.x && b.y < a.y) {
            } else {
                assert(a == b);
            }
        }
    }
    assert(vstd::relations::sorted_by(s1, leq));
    assert(vstd::relations::sorted_by(s2, leq));
    vstd::seq_lib::lemma_sorted_unique(s1, s2, leq);
    assert(s1 =~= s2);
}

/// Clockwise-bend test for three points, exact: true exactly when the
/// cross product of the displacements from `a` is negative.
pub fn right_turn(a: Point2d, b: Point2d, c: Point2d) -> (r: bool)
    requires
        a.in_range(),
        b.in_range(),
        c.in_range(),
    ensures
        r == right_turn_spec(a, b, c),
{
    let v1 = b.sub(a);
    let v2 = c.sub(a);
    let x: i64 = v1.cross(&v2);
    proof {
        assert(x as int == (b.x - a.x) * (c.y - a.y) - (b.y - a.y) * (c.x - a.x))
            by (nonlinear_arith)
            requires
                v1.x == b.x - a.x,
                v1.y == b.y - a.y,
                v2.x == c.x - a.x,
                v2.y == c.y - a.y,
                x as int == v1.x * v2.y - v1.y * v2.x,
        ;
    }
    x < 0
}

/// The convex hull of the given points, or nothing for fewer than three.
/// Sorts the points in place, then builds the two boundary chains; the
/// returned boundary is exactly `hull_spec` of the sorted points, so it
/// depends only on which points were given, not on their order.
pub fn convex_hull(points: &mut Vec<Point2d>) -> (r: Option<Polygon2D>)
    requires
        pts_in_range(old(points)@),
    ensures
        old(points)@.len() < 3 ==> r is None && final(points)@ == old(points)@,
        old(points)@.len() >= 3 ==> ({
            &&& sorted_xy(final(points)@)
            &&& final(points)@.to_multiset() == old(points)@.to_multiset()
            &&& final(points)@.len() == old(points)@.len()
            &&& r matches Some(h) && h.points@ == hull_spec(final(points)@)
        }),
{
    broadcast use vstd::seq_lib::group_to_multiset_ensures;

    if points.len() < 3 {
        return None;
    }
    points.sort_lexicographic();
    proof {
        assert forall|k: int| 0 <= k < points@.len() implies (#[trigger] points@[k]).in_range() by {
            assert(points@.to_multiset().contains(points@[k]));
            assert(old(points)@.to_multiset().contains(points@[k]));
            assert(old(points)@.contains(points@[k]));
            let j = choose|j: int| 0 <= j < old(points)@.len() && old(points)@[j] == points@[k];
            assert(old(points)@[j].in_range());
        }
    }
    let ghost s = points@;
    let n: usize = points.len();

    let mut l_upper: Vec<Point2d> = Vec::new();
    l_upper.push(points[0]);
    l_upper.push(points[1]);
    proof {
        assert(l_upper@ =~= seq![s[0], s[1]]);
        assert(s.subrange(2, 2) =~= Seq::<Point2d>::empty());
    }
    let mut i: usize = 2;
    while i < n
        invariant
            n == points@.len(),
            points@ == s,
            pts_in_range(s),
            n >= 3,
            2 <= i <= n,
            l_upper@ == chain_fold(seq![s[0], s[1]], s.subrange(2, i as int)),
            l_upper@.len() >= 2,
            pts_in_range(l_upper@),
        decreases n - i,
    {
        let ghost chain_before = l_upper@;
        l_upper.push(points[i]);
        proof {
            assert(l_upper@.drop_last() =~= chain_before);
        }
        while l_upper.len() > 2 && !right_turn(
            l_upper.from_last(2),
            l_upper.from_last(1),
            l_upper.from_last(0),
        )
            invariant
                points@ == s,
                pts_in_range(s),
                i < n,
                n == s.len(),
                l_upper@.len() >= 2,
                pts_in_range(l_upper@),
                l_upper@.last() == s[i as int],
                chain_add(l_upper@.drop_last(), s[i as int]) == chain_add(
                    chain_before,
                    s[i as int],
                ),
            decreases l_upper@.len(),
        {
            let ghost v = l_upper@;
            l_upper.remove(l_upper.len() - 2);
            proof {
                assert(l_upper@ =~= v.drop_last().drop_last().push(s[i as int]));
                assert(l_upper@.drop_last() =~= v.drop_last().drop_last());
            }
        }
        proof {
            assert(l_upper@.drop_last().push(s[i as int]) =~= l_upper@);
            assert(l_upper@ == chain_add(chain_before, s[i as int]));
            assert(s.subrange(2, i + 1) =~= s.subrange(2, i as int).push(s[i as int]));
            lemma_chain_fold_push(seq![s[0], s[1]], s.subrange(2, i as int), s[i as int]);
            lemma_chain_add_len(chain_before, s[i as int]);
        }
        i = i + 1;
    }
    proof {
        assert(s.subrange(2, n as int) =~= s.skip(2));
    }

    let mut l_lower: Vec<Point2d> = Vec::new();
    l_lower.push(points.from_last(0));
    l_lower.push(points.from_last(1));
    let ghost rev = s.take(n - 2).reverse();
    proof {
        assert(l_lower@ =~= seq![s[n - 1], s[n - 2]]);
        assert(rev.take(0) =~= Seq::<Point2d>::empty());
    }
    let mut j: usize = n - 2;
    while j > 0
        invariant
            n == points@.len(),
            points@ == s,
            pts_in_range(s),
            n >= 3,
            j <= n - 2,
            rev == s.take(n - 2).reverse(),
            l_lower@ == chain_fold(seq![s[n - 1], s[n - 2]], rev.take(n - 2 - j)),
            l_lower@.len() >= 2,
            pts_in_range(l_lower@),
        decreases j,
    {
        j = j - 1;
        let ghost chain_before = l_lower@;
        l_lower.push(points[j]);
        proof {
            assert(l_lower@.drop_last() =~= chain_before);
        }
        while l_lower.len() > 2 && !right_turn(
            l_lower.from_last(2),
            l_lower.from_last(1),
            l_lower.from_last(0),
        )
            invariant
                points@ == s,
                pts_in_range(s),
                j < n,
                n == s.len(),
                l_lower@.len() >= 2,
                pts_in_range(l_lower@),
                l_lower@.last() == s[j as int],
                chain_add(l_lower@.drop_last(), s[j as int]) == chain_add(
                    chain_before,
                    s[j as int],
                ),
            decreases l_lower@.len(),
        {
            let ghost v = l_lower@;
            l_lower.remove(l_lower.len() - 2);
            proof {
                assert(l_lower@ =~= v.drop_last().drop_last().push(s[j as int]));
                assert(l_lower@.drop_last() =~= v.drop_last().drop_last());
            }
        }
        proof {
            assert(l_lower@.drop_last().push(s[j as int]) =~= l_lower@);
            assert(l_lower@ == chain_add(chain_before, s[j as int]));
            assert(rev[n - 3 - j] == s[j as int]);
            assert(rev.take(n - 2 - j) =~= rev.take(n - 3 - j).push(rev[n - 3 - j]));
            lemma_chain_fold_push(
                seq![s[n - 1], s[n - 2]],
                rev.take(n - 3 - j),
                rev[n - 3 - j],
            );
            lemma_chain_add_len(chain_before, s[j as int]);
        }
    }
    proof {
        assert(rev.take(n - 2) =~= rev);
        lemma_chain_fold_len(seq![s[n - 1], s[n - 2]], rev);
    }

    let ghost lower_full = l_lower@;
    l_lower.remove(l_lower.len() - 1);
    l_lower.remove(0);
    proof {
        assert(l_lower@ =~= lower_full.drop_first().drop_last());
    }
    l_upper.append(&mut l_lower);
    proof {
        assert(l_upper@ == hull_spec(s));
    }
    Some(Polygon2D { points: l_upper })
}

/// Every run of three consecutive vertices bends clockwise.
pub open spec fn triples_right(s: Seq<Point2d>) -> bool {
    forall|i: int|
        0 <= i < s.len() - 2 ==> right_turn_spec(s[i], #[trigger] s[i + 1], s[i + 2])
}

/// A chain step preserves the clockwise bend of every vertex run: the
/// vertices it discards are exactly those that would break it.
proof fn lemma_chain_add_turns(chain: Seq<Point2d>, p: Point2d)
    requires
        triples_right(chain),
    ensures
        triples_right(chain_add(chain, p)),
    decreases chain.len(),
{
    if chain.len() < 2 || right_turn_spec(chain[chain.len() - 2], chain[chain.len() - 1], p) {
        let r = chain.push(p);
        assert forall|i: int| 0 <= i < r.len() - 2 implies right_turn_spec(
            r[i],
            #[trigger] r[i + 1],
            r[i + 2],
        ) by {
            if i < r.len() - 3 {
                assert(r[i] == chain[i] && r[i + 1] == chain[i + 1] && r[i + 2] == chain[i + 2]);
            } else {
                assert(r[i] == chain[chain.len() - 2] && r[i + 1] == chain[chain.len() - 1] && r[i
                    + 2] == p);
            }
        }
    } else {
        assert forall|i: int| 0 <= i < chain.drop_last().len() - 2 implies right_turn_spec(
            chain.drop_last()[i],
            #[trigger] chain.drop_last()[i + 1],
            chain.drop_last()[i + 2],
        ) by {
            assert(chain.drop_last()[i] == chain[i] && chain.drop_last()[i + 1] == chain[i + 1]
                && chain.drop_last()[i + 2] == chain[i + 2]);
        }
        lemma_chain_add_turns(chain.drop_last(), p);
    }
}

/// Folding keeps every vertex run clockwise.
proof fn lemma_chain_fold_turns(chain: Seq<Point2d>, rest: Seq<Point2d>)
    requires
        triples_right(chain),
    ensures
        triples_right(chain_fold(chain, rest)),
    decreases rest.len(),
{
    if rest.len() > 0 {
        lemma_chain_add_turns(chain, rest[0]);
        lemma_chain_fold_turns(chain_add(chain, rest[0]), rest.drop_first());
    }
}

/// Local convexity of the hull boundary: within the upper chain and within
/// the lower chain, every three consecutive vertices bend clockwise, so
/// neither chain ever turns back or runs straight through a vertex.
pub proof fn lemma_hull_chains_turn(s: Seq<Point2d>)
    requires
        s.len() >= 3,
    ensures
        triples_right(chain_fold(seq![s[0], s[1]], s.skip(2))),
        triples_right(
            chain_fold(
                seq![s[s.len() - 1], s[s.len() - 2]],
                s.take(s.len() - 2).reverse(),
            ),
        ),
{
    let n = s.len() as int;
    assert(triples_right(seq![s[0], s[1]]));
    lemma_chain_fold_turns(seq![s[0], s[1]], s.skip(2));
    assert(triples_right(seq![s[n - 1], s[n - 2]]));
    lemma_chain_fold_turns(seq![s[n - 1], s[n - 2]], s.take(n - 2).reverse());
}

} // verus!
