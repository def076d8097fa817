//! Segment-intersection detection: the naive pairwise scan, which serves
//! as the oracle, and the sweep-line detector that processes endpoint and
//! intersection events in lexicographic order over an ordered event queue
//! and an ordered set of active segments.
use crate::lexicographic2d::{
    lemma_rp_lex_asym, lemma_rp_lex_total, lemma_rp_lex_trans, pt_lex_le, pt_lex_lt, rp_lex_less,
    rp_lex_le, rp_lex_lt, LexicographicLine2d,
};
use crate::line2d::{det_spec, intersect_spec, on_line_spec, Line2D};
use crate::point2d::{Point2d, RatPoint2d};
use vstd::prelude::*;

verus! {

/// The intersection points of segment `i` against segments `j, j+1, ...`,
/// in scan order.
pub open spec fn row_points(lines: Seq<Line2D>, i: int, j: int) -> Seq<RatPoint2d>
    decreases lines.len() - j,
{
    if j < 0 || j >= lines.len() || i < 0 || i >= lines.len() {
        Seq::empty()
    } else {
        let rest = row_points(lines, i, j + 1);
        match intersect_spec(lines[i], lines[j]) {
            Option::Some(p) => seq![p] + rest,
            Option::None => rest,
        }
    }
}

/// All pairwise intersection points of the segments from index `i` on, in
/// scan order: each pair once, first index ascending, then second.
pub open spec fn naive_points(lines: Seq<Line2D>, i: int) -> Seq<RatPoint2d>
    decreases lines.len() - i,
{
    if i < 0 || i >= lines.len() {
        Seq::empty()
    } else {
        row_points(lines, i, i + 1) + naive_points(lines, i + 1)
    }
}

/// As `row_points`, each point annotated with its contributing pair.
pub open spec fn row_trios(lines: Seq<Line2D>, i: int, j: int) -> Seq<(RatPoint2d, Line2D, Line2D)>
    decreases lines.len() - j,
{
    if j < 0 || j >= lines.len() || i < 0 || i >= lines.len() {
        Seq::empty()
    } else {
        let rest = row_trios(lines, i, j + 1);
        match intersect_spec(lines[i], lines[j]) {
            Option::Some(p) => seq![(p, lines[i], lines[j])] + rest,
            Option::None => rest,
        }
    }
}

/// As `naive_points`, each point annotated with its contributing pair.
pub open spec fn naive_trios(lines: Seq<Line2D>, i: int) -> Seq<(RatPoint2d, Line2D, Line2D)>
    decreases lines.len() - i,
{
    if i < 0 || i >= lines.len() {
        Seq::empty()
    } else {
        row_trios(lines, i, i + 1) + naive_trios(lines, i + 1)
    }
}

/// Every pairwise intersection point, by brute force over all pairs.  The
/// result is exactly `naive_points`: one entry per ordered pair that the
/// exact solver reports, in scan order.  A point where several segments
/// meet appears once per contributing pair.
pub fn naive_line_intersection(lines: &Vec<Line2D>) -> (r: Vec<RatPoint2d>)
    ensures
        r@ == naive_points(lines@, 0),
{
    let mut points: Vec<RatPoint2d> = Vec::new();
    if lines.len() <= 1 {
        proof {
            if lines@.len() == 1 {
                assert(row_points(lines@, 0, 1) =~= Seq::<RatPoint2d>::empty());
                assert(naive_points(lines@, 1) =~= Seq::<RatPoint2d>::empty());
            }
            assert(naive_points(lines@, 0) =~= Seq::<RatPoint2d>::empty());
        }
        return points;
    }
    let n: usize = lines.len();
    let mut i: usize = 0;
    while i < n - 1
        invariant
            n == lines@.len(),
            n >= 2,
            i <= n - 1,
            points@ + naive_points(lines@, i as int) == naive_points(lines@, 0),
        decreases n - i,
    {
        let mut j: usize = i + 1;
        proof {
            assert(naive_points(lines@, i as int) == row_points(lines@, i as int, i + 1)
                + naive_points(lines@, i + 1));
        }
        while j < n
            invariant
                n == lines@.len(),
                n >= 2,
                i < n - 1,
                i + 1 <= j <= n,
                points@ + row_points(lines@, i as int, j as int) + naive_points(lines@, i + 1)
                    == naive_points(lines@, 0),
            decreases n - j,
        {
            let ghost before = points@;
            match lines[i].intersect(&lines[j]) {
                Option::Some(p) => {
                    points.push(p);
                    proof {
                        assert(row_points(lines@, i as int, j as int) == seq![p] + row_points(
                            lines@,
                            i as int,
                            j + 1,
                        ));
                        assert(before + (seq![p] + row_points(lines@, i as int, j + 1)) =~= (before
                            + seq![p]) + row_points(lines@, i as int, j + 1));
                        assert(points@ =~= before + seq![p]);
                    }
                },
                Option::None => {
                    proof {
                        assert(row_points(lines@, i as int, j as int) == row_points(
                            lines@,
                            i as int,
                            j + 1,
                        ));
                    }
                },
            }
            j = j + 1;
        }
        proof {
            assert(row_points(lines@, i as int, n as int) =~= Seq::<RatPoint2d>::empty());
            assert(points@ + Seq::<RatPoint2d>::empty() =~= points@);
        }
        i = i + 1;
    }
    proof {
        assert(naive_points(lines@, n - 1) == row_points(lines@, n - 1, n as int) + naive_points(
            lines@,
            n as int,
        ));
        assert(row_points(lines@, n - 1, n as int) =~= Seq::<RatPoint2d>::empty());
        assert(naive_points(lines@, n as int) =~= Seq::<RatPoint2d>::empty());
        assert(naive_points(lines@, n - 1) =~= Seq::<RatPoint2d>::empty());
        assert(points@ + Seq::<RatPoint2d>::empty() =~= points@);
    }
    points
}

/// Every pairwise intersection point together with the two segments that
/// produced it, in the same scan order as `naive_line_intersection`.
pub fn naive_line_intersection_with_lines(lines: &Vec<Line2D>) -> (r: Vec<
    (RatPoint2d, Line2D, Line2D),
>)
    ensures
        r@ == naive_trios(lines@, 0),
{
    let mut points: Vec<(RatPoint2d, Line2D, Line2D)> = Vec::new();
    if lines.len() <= 1 {
        proof {
            if lines@.len() == 1 {
                assert(row_trios(lines@, 0, 1) =~= Seq::<(RatPoint2d, Line2D, Line2D)>::empty());
                assert(naive_trios(lines@, 1) =~= Seq::<(RatPoint2d, Line2D, Line2D)>::empty());
            }
            assert(naive_trios(lines@, 0) =~= Seq::<(RatPoint2d, Line2D, Line2D)>::empty());
        }
        return points;
    }
    let n: usize = lines.len();
    let mut i: usize = 0;
    while i < n - 1
        invariant
            n == lines@.len(),
            n >= 2,
            i <= n - 1,
            points@ + naive_trios(lines@, i as int) == naive_trios(lines@, 0),
        decreases n - i,
    {
        let mut j: usize = i + 1;
        proof {
            assert(naive_trios(lines@, i as int) == row_trios(lines@, i as int, i + 1)
                + naive_trios(lines@, i + 1));
        }
        while j < n
            invariant
                n == lines@.len(),
                n >= 2,
                i < n - 1,
                i + 1 <= j <= n,
                points@ + row_trios(lines@, i as int, j as int) + naive_trios(lines@, i + 1)
                    == naive_trios(lines@, 0),
            decreases n - j,
        {
            let ghost before = points@;
            match lines[i].intersect(&lines[j]) {
                Option::Some(p) => {
                    points.push((p, lines[i], lines[j]));
                    proof {
                        let t = (p, lines@[i as int], lines@[j as int]);
                        assert(row_trios(lines@, i as int, j as int) == seq![t] + row_trios(
                            lines@,
                            i as int,
                            j + 1,
                        ));
                        assert(before + (seq![t] + row_trios(lines@, i as int, j + 1)) =~= (before
                            + seq![t]) + row_trios(lines@, i as int, j + 1));
                        assert(points@ =~= before + seq![t]);
                    }
                },
                Option::None => {
                    proof {
                        assert(row_trios(lines@, i as int, j as int) == row_trios(
                            lines@,
                            i as int,
                            j + 1,
                        ));
                    }
                },
            }
            j = j + 1;
        }
        proof {
            assert(row_trios(lines@, i as int, n as int) =~= Seq::<
                (RatPoint2d, Line2D, Line2D),
            >::empty());
            assert(points@ + Seq::<(RatPoint2d, Line2D, Line2D)>::empty() =~= points@);
        }
        i = i + 1;
    }
    proof {
        assert(naive_trios(lines@, n - 1) == row_trios(lines@, n - 1, n as int) + naive_trios(
            lines@,
            n as int,
        ));
        assert(row_trios(lines@, n - 1, n as int) =~= Seq::<(RatPoint2d, Line2D, Line2D)>::empty());
        assert(naive_trios(lines@, n as int) =~= Seq::<(RatPoint2d, Line2D, Line2D)>::empty());
        assert(naive_trios(lines@, n - 1) =~= Seq::<(RatPoint2d, Line2D, Line2D)>::empty());
        assert(points@ + Seq::<(RatPoint2d, Line2D, Line2D)>::empty() =~= points@);
    }
    points
}

/// A segment normalized so its upper (lexicographically smaller) endpoint
/// is `start`.
pub open spec fn norm_spec(l: Line2D) -> Line2D {
    if pt_lex_lt(l.start, l.end) {
        l
    } else {
        l.reverse_spec()
    }
}

/// `l` is the normalized form of one of the input segments.
pub open spec fn seg_of_input(lines: Seq<Line2D>, l: Line2D) -> bool {
    exists|i: int| 0 <= i < lines.len() && #[trigger] norm_spec(lines[i]) == l
}

/// The start of a segment as a rational point.
pub open spec fn start_rp(l: Line2D) -> RatPoint2d {
    RatPoint2d { xn: l.start.x, yn: l.start.y, den: 1 as i64 }
}

/// The end of a segment as a rational point.
pub open spec fn end_rp(l: Line2D) -> RatPoint2d {
    RatPoint2d { xn: l.end.x, yn: l.end.y, den: 1 as i64 }
}

/// Two distinct normalized input segments whose supporting lines both pass
/// through `p`.
pub open spec fn is_meet_pair(lines: Seq<Line2D>, p: RatPoint2d, l1: Line2D, l2: Line2D) -> bool {
    &&& seg_of_input(lines, l1)
    &&& seg_of_input(lines, l2)
    &&& l1 != l2
    &&& on_line_spec(p, l1)
    &&& on_line_spec(p, l2)
}

/// The supporting lines of at least two distinct normalized input
/// segments pass through `p`.  Collinearity with the segments' lines is
/// what the active-set scan certifies; it does not by itself bound the
/// point to the segments' extents.
pub open spec fn on_two_input_lines(lines: Seq<Line2D>, p: RatPoint2d) -> bool {
    exists|l1: Line2D, l2: Line2D| #[trigger] is_meet_pair(lines, p, l1, l2)
}

/// A well-formed sweep segment: an in-range, normalized form of an input
/// segment.
pub open spec fn sweep_seg_wf(lines: Seq<Line2D>, l: Line2D) -> bool {
    &&& l.in_range()
    &&& pt_lex_le(l.start, l.end)
    &&& seg_of_input(lines, l)
}

/// A pending event: a sweep position, with the segments whose upper
/// endpoint it is.
pub struct Event {
    pub point: RatPoint2d,
    pub segments: Vec<Line2D>,
}

impl Event {
    /// An event at the given position with no segments attached yet.
    pub fn new(point: RatPoint2d) -> (r: Event)
        ensures
            r.point == point,
            r.segments@.len() == 0,
    {
        Event { point, segments: Vec::new() }
    }
}

/// A well-formed event: its segments are well-formed sweep segments that
/// all start at the event position, each listed once.
pub open spec fn event_wf(e: Event, lines: Seq<Line2D>) -> bool {
    &&& e.point.wf()
    &&& forall|k: int|
        0 <= k < e.segments@.len() ==> sweep_seg_wf(lines, #[trigger] e.segments@[k]) && start_rp(
            e.segments@[k],
        ).eq_spec(e.point)
    &&& forall|k1: int, k2: int|
        0 <= k1 < k2 < e.segments@.len() ==> e.segments@[k1] != e.segments@[k2]
}

/// A well-formed event queue: well-formed events at strictly increasing
/// sweep positions.
pub open spec fn queue_wf(q: Seq<Event>, lines: Seq<Line2D>) -> bool {
    &&& forall|i: int| 0 <= i < q.len() ==> event_wf(#[trigger] q[i], lines)
    &&& forall|i: int, j: int| 0 <= i < j < q.len() ==> rp_lex_lt(q[i].point, q[j].point)
}

/// A well-formed active-segment structure: well-formed sweep segments,
/// each listed once, ordered by their start points.
pub open spec fn status_wf(st: Seq<Line2D>, lines: Seq<Line2D>) -> bool {
    &&& forall|i: int| 0 <= i < st.len() ==> sweep_seg_wf(lines, #[trigger] st[i])
    &&& forall|i: int, j: int| 0 <= i < j < st.len() ==> pt_lex_le(st[i].start, st[j].start)
    &&& forall|i: int, j: int| 0 <= i < j < st.len() ==> st[i] != st[j]
}

/// The segment is attached to a queued event at its start position.
pub open spec fn attached(q: Seq<Event>, seg: Line2D) -> bool {
    exists|j: int|
        0 <= j < q.len() && (#[trigger] q[j]).point.eq_spec(start_rp(seg))
            && q[j].segments@.contains(seg)
}

/// Value equality of rational points is transitive.
proof fn lemma_rp_eq_trans(a: RatPoint2d, b: RatPoint2d, c: RatPoint2d)
    requires
        a.wf(),
        b.wf(),
        c.wf(),
        a.eq_spec(b),
        b.eq_spec(c),
    ensures
        a.eq_spec(c),
{
    crate::lexicographic2d::lemma_frac_eq_trans(
        a.xn as int,
        a.den as int,
        b.xn as int,
        b.den as int,
        c.xn as int,
        c.den as int,
    );
    crate::lexicographic2d::lemma_frac_eq_trans(
        a.yn as int,
        a.den as int,
        b.yn as int,
        b.den as int,
        c.yn as int,
        c.den as int,
    );
}

/// Two segments attached at value-equal start positions sit at the same
/// queued event: the queue's keys are strictly increasing, so no two of
/// them are value-equal.
proof fn lemma_attached_same_event(q: Seq<Event>, lines: Seq<Line2D>, s1: Line2D, s2: Line2D)
    requires
        queue_wf(q, lines),
        attached(q, s1),
        attached(q, s2),
        start_rp(s1).eq_spec(start_rp(s2)),
        start_rp(s2).eq_spec(start_rp(s1)),
    ensures
        exists|j: int|
            0 <= j < q.len() && (#[trigger] q[j]).segments@.contains(s1)
                && q[j].segments@.contains(s2) && q[j].point.eq_spec(start_rp(s1)),
{
    let j1 = choose|j: int|
        0 <= j < q.len() && (#[trigger] q[j]).point.eq_spec(start_rp(s1))
            && q[j].segments@.contains(s1);
    let j2 = choose|j: int|
        0 <= j < q.len() && (#[trigger] q[j]).point.eq_spec(start_rp(s2))
            && q[j].segments@.contains(s2);
    if j1 != j2 {
        assert(start_rp(s1).wf() && start_rp(s2).wf());
        lemma_rp_eq_trans(q[j1].point, start_rp(s1), start_rp(s2));
        lemma_rp_eq_trans(q[j1].point, start_rp(s2), q[j2].point);
        if j1 < j2 {
            assert(rp_lex_lt(q[j1].point, q[j2].point));
            lemma_rp_lex_asym(q[j1].point, q[j2].point);
        } else {
            assert(rp_lex_lt(q[j2].point, q[j1].point));
            lemma_rp_lex_asym(q[j2].point, q[j1].point);
        }
        assert(false);
    }
    assert(q[j1].segments@.contains(s1) && q[j1].segments@.contains(s2));
}

/// Some queued event sits at the position `p` (by value).
pub open spec fn has_queued_key(q: Seq<Event>, p: RatPoint2d) -> bool {
    exists|i: int| 0 <= i < q.len() && (#[trigger] q[i].point).eq_spec(p)
}

/// Finds the position of the event at `p`, if one is queued.
fn queue_find(q: &Vec<Event>, p: &RatPoint2d, Ghost(lines): Ghost<Seq<Line2D>>) -> (r: Option<
    usize,
>)
    requires
        queue_wf(q@, lines),
        p.wf(),
    ensures
        r matches Some(ix) ==> ix < q@.len() && q@[ix as int].point.eq_spec(*p),
        r is None ==> forall|i: int| 0 <= i < q@.len() ==> !(#[trigger] q@[i].point).eq_spec(*p),
{
    let n: usize = q.len();
    let mut i: usize = 0;
    while i < n
        invariant
            queue_wf(q@, lines),
            p.wf(),
            n == q@.len(),
            i <= n,
            forall|k: int| 0 <= k < i ==> !(#[trigger] q@[k].point).eq_spec(*p),
        decreases n - i,
    {
        if q[i].point.eq_value(p) {
            return Some(i);
        }
        i = i + 1;
    }
    None
}

/// The position at which a new event at `p` keeps the queue sorted,
/// assuming no event at `p` is queued.
fn queue_position(q: &Vec<Event>, p: &RatPoint2d, Ghost(lines): Ghost<Seq<Line2D>>) -> (pos: usize)
    requires
        queue_wf(q@, lines),
        p.wf(),
        forall|i: int| 0 <= i < q@.len() ==> !(#[trigger] q@[i].point).eq_spec(*p),
    ensures
        pos <= q@.len(),
        forall|i: int| 0 <= i < pos ==> rp_lex_lt((#[trigger] q@[i].point), *p),
        forall|i: int| pos <= i < q@.len() ==> rp_lex_lt(*p, (#[trigger] q@[i].point)),
{
    let n: usize = q.len();
    let mut pos: usize = 0;
    while pos < n && !rp_lex_less(p, &q[pos].point)
        invariant
            queue_wf(q@, lines),
            p.wf(),
            n == q@.len(),
            pos <= n,
            forall|i: int| 0 <= i < q@.len() ==> !(#[trigger] q@[i].point).eq_spec(*p),
            forall|i: int| 0 <= i < pos ==> rp_lex_lt((#[trigger] q@[i].point), *p),
        decreases n - pos,
    {
        proof {
            lemma_rp_lex_total(*p, q@[pos as int].point);
        }
        pos = pos + 1;
    }
    proof {
        assert forall|i: int| pos <= i < q@.len() implies rp_lex_lt(
            *p,
            (#[trigger] q@[i].point),
        ) by {
            if i > pos {
                lemma_rp_lex_trans(*p, q@[pos as int].point, q@[i].point);
            }
        }
    }
    pos
}

/// Queues an (initially segment-free) event at `p` unless one is already
/// queued there.  Every event of the result is an event of the old queue,
/// or the fresh event at `p`.
fn queue_insert_event(q: &mut Vec<Event>, p: RatPoint2d, Ghost(lines): Ghost<Seq<Line2D>>)
    requires
        queue_wf(old(q)@, lines),
        p.wf(),
    ensures
        queue_wf(final(q)@, lines),
        forall|i: int|
            0 <= i < final(q)@.len() ==> (exists|j: int|
                0 <= j < old(q)@.len() && final(q)@[i] == #[trigger] old(q)@[j]) || ((
            #[trigger] final(q)@[i]).point == p && final(q)@[i].segments@.len() == 0),
        has_queued_key(old(q)@, p) ==> final(q)@ == old(q)@,
        !has_queued_key(old(q)@, p) ==> (exists|pos: int, ev: Event|
            0 <= pos <= old(q)@.len() && final(q)@ == #[trigger] old(q)@.insert(pos, ev)
                && ev.point == p && ev.segments@.len() == 0),
        forall|s: Line2D| #[trigger] attached(old(q)@, s) ==> attached(final(q)@, s),
{
    let found = queue_find(q, &p, Ghost(lines));
    match found {
        Option::Some(ix) => {
            proof {
                assert(has_queued_key(old(q)@, p));
            }
        },
        Option::None => {
            proof {
                assert(!has_queued_key(old(q)@, p));
            }
            let pos = queue_position(q, &p, Ghost(lines));
            let ghost before = q@;
            let fresh = Event::new(p);
            let ghost fresh_view = fresh;
            q.insert(pos, fresh);
            proof {
                assert forall|i: int, j: int|
                    0 <= i < j < q@.len() implies rp_lex_lt(q@[i].point, q@[j].point) by {
                    if j < pos {
                        assert(q@[i] == before[i] && q@[j] == before[j]);
                    } else if i > pos {
                        assert(q@[i] == before[i - 1] && q@[j] == before[j - 1]);
                    } else if j == pos {
                        assert(q@[i] == before[i]);
                    } else if i == pos {
                        assert(q@[j] == before[j - 1]);
                    } else {
                        assert(q@[i] == before[i] && q@[j] == before[j - 1]);
                        assert(rp_lex_lt(before[i].point, p));
                        assert(rp_lex_lt(p, before[j - 1].point));
                        lemma_rp_lex_trans(before[i].point, p, before[j - 1].point);
                    }
                }
                assert(q@ == before.insert(pos as int, fresh_view));
                before.insert_ensures(pos as int, fresh_view);
                assert forall|s: Line2D| #[trigger] attached(before, s) implies attached(
                    q@,
                    s,
                ) by {
                    let j = choose|j: int|
                        0 <= j < before.len() && (#[trigger] before[j]).point.eq_spec(start_rp(s))
                            && before[j].segments@.contains(s);
                    if j < pos {
                        assert(q@[j] == before[j]);
                    } else {
                        assert(q@[j + 1] == before[j]);
                    }
                }
            }
        },
    }
}

/// A segment's start is on its own supporting line, and so is its end.
proof fn lemma_on_line_at_endpoint(p: RatPoint2d, l: Line2D, at_start: bool)
    requires
        p.wf(),
        at_start ==> start_rp(l).eq_spec(p),
        !at_start ==> end_rp(l).eq_spec(p),
    ensures
        on_line_spec(p, l),
{
    if at_start {
        assert(l.start.x * p.den == p.xn * 1 && l.start.y * p.den == p.yn * 1);
        assert((p.xn - l.start.x * p.den) * (l.end.y - l.start.y) - (p.yn - l.start.y * p.den) * (
        l.end.x - l.start.x) == 0) by (nonlinear_arith)
            requires
                l.start.x * p.den == p.xn * 1,
                l.start.y * p.den == p.yn * 1,
        ;
    } else {
        assert(l.end.x * p.den == p.xn * 1 && l.end.y * p.den == p.yn * 1);
        assert((p.xn - l.start.x * p.den) * (l.end.y - l.start.y) - (p.yn - l.start.y * p.den) * (
        l.end.x - l.start.x) == 0) by (nonlinear_arith)
            requires
                l.end.x * p.den == p.xn * 1,
                l.end.y * p.den == p.yn * 1,
        ;
    }
}

/// Attaches `seg` to the event at its start point during initialization,
/// creating the event if it is not yet queued; the segment is attached
/// once even if registered repeatedly.
fn queue_add_upper(q: &mut Vec<Event>, seg: Line2D, Ghost(lines): Ghost<Seq<Line2D>>)
    requires
        queue_wf(old(q)@, lines),
        sweep_seg_wf(lines, seg),
    ensures
        queue_wf(final(q)@, lines),
        attached(final(q)@, seg),
        forall|s: Line2D| #[trigger] attached(old(q)@, s) ==> attached(final(q)@, s),
{
    let p = RatPoint2d::from_point(seg.start);
    proof {
        assert(p == start_rp(seg));
    }
    let found = queue_find(q, &p, Ghost(lines));
    match found {
        Option::Some(ix) => {
            let mut ev = q.remove(ix);
            proof {
                assert(event_wf(old(q)@[ix as int], lines));
            }
            let ghost before_segs = ev.segments@;
            let n: usize = ev.segments.len();
            let mut k: usize = 0;
            let mut present: bool = false;
            while k < n
                invariant
                    n == ev.segments@.len(),
                    k <= n,
                    present ==> exists|m: int|
                        0 <= m < n && #[trigger] ev.segments@[m] == seg,
                    !present ==> forall|m: int| 0 <= m < k ==> #[trigger] ev.segments@[m] != seg,
                decreases n - k,
            {
                if ev.segments[k] == seg {
                    present = true;
                }
                k = k + 1;
            }
            if !present {
                ev.segments.push(seg);
            }
            proof {
                assert(event_wf(ev, lines)) by {
                    assert(start_rp(seg).eq_spec(ev.point));
                    if !present {
                        assert(forall|m: int|
                            0 <= m < before_segs.len() ==> #[trigger] before_segs[m]
                                == ev.segments@[m]);
                    }
                }
            }
            let ghost ev_view = ev;
            q.insert(ix, ev);
            proof {
                assert forall|i: int, j: int|
                    0 <= i < j < q@.len() implies rp_lex_lt(q@[i].point, q@[j].point) by {
                    assert(q@[ix as int].point == old(q)@[ix as int].point);
                    if i != ix && j != ix {
                        assert(q@[i] == old(q)@[i] && q@[j] == old(q)@[j]);
                    } else if i == ix {
                        assert(q@[j] == old(q)@[j]);
                    } else {
                        assert(q@[i] == old(q)@[i]);
                    }
                }
                assert(q@[ix as int] == ev_view);
                if present {
                    let m = choose|m: int|
                        0 <= m < ev_view.segments@.len() && #[trigger] ev_view.segments@[m] == seg;
                    assert(ev_view.segments@.contains(seg));
                } else {
                    assert(ev_view.segments@.last() == seg);
                    assert(ev_view.segments@.contains(seg));
                }
                assert(ev_view.point.eq_spec(start_rp(seg)));
                assert(attached(q@, seg));
                assert forall|s: Line2D| #[trigger] attached(old(q)@, s) implies attached(
                    q@,
                    s,
                ) by {
                    let j = choose|j: int|
                        0 <= j < old(q)@.len() && (#[trigger] old(q)@[j]).point.eq_spec(
                            start_rp(s),
                        ) && old(q)@[j].segments@.contains(s);
                    if j != ix {
                        assert(q@[j] == old(q)@[j]);
                    } else {
                        assert(ev_view.point == old(q)@[ix as int].point);
                        let m = choose|m: int|
                            0 <= m < old(q)@[ix as int].segments@.len()
                                && old(q)@[ix as int].segments@[m] == s;
                        assert(ev_view.segments@[m] == s);
                        assert(ev_view.segments@.contains(s));
                        assert(attached(q@, s));
                    }
                }
            }
        },
        Option::None => {
            let pos = queue_position(q, &p, Ghost(lines));
            let ghost before = q@;
            let mut ev = Event::new(p);
            ev.segments.push(seg);
            proof {
                assert(event_wf(ev, lines));
            }
            let ghost ev_view = ev;
            q.insert(pos, ev);
            proof {
                assert forall|i: int, j: int|
                    0 <= i < j < q@.len() implies rp_lex_lt(q@[i].point, q@[j].point) by {
                    if j < pos {
                        assert(q@[i] == before[i] && q@[j] == before[j]);
                    } else if i > pos {
                        assert(q@[i] == before[i - 1] && q@[j] == before[j - 1]);
                    } else if j == pos {
                        assert(q@[i] == before[i]);
                    } else if i == pos {
                        assert(q@[j] == before[j - 1]);
                    } else {
                        assert(q@[i] == before[i] && q@[j] == before[j - 1]);
                        lemma_rp_lex_trans(before[i].point, p, before[j - 1].point);
                    }
                }
                assert(q@ == before.insert(pos as int, ev_view));
                before.insert_ensures(pos as int, ev_view);
                assert(q@[pos as int] == ev_view);
                assert(ev_view.segments@.last() == seg);
                assert(ev_view.segments@.contains(seg));
                assert(ev_view.point.eq_spec(start_rp(seg)));
                assert(attached(q@, seg));
                assert forall|s: Line2D| #[trigger] attached(before, s) implies attached(
                    q@,
                    s,
                ) by {
                    let j = choose|j: int|
                        0 <= j < before.len() && (#[trigger] before[j]).point.eq_spec(start_rp(s))
                            && before[j].segments@.contains(s);
                    if j < pos {
                        assert(q@[j] == before[j]);
                    } else {
                        assert(q@[j + 1] == before[j]);
                    }
                }
            }
        },
    }
}

/// Accepts the segments whose lower endpoint is the sweep position.
pub open spec fn ends_at(p: RatPoint2d) -> spec_fn(Line2D) -> bool {
    |s: Line2D| end_rp(s).eq_spec(p)
}

/// Accepts the segments that stay active past the sweep position.
pub open spec fn stays_at(p: RatPoint2d) -> spec_fn(Line2D) -> bool {
    |s: Line2D| !end_rp(s).eq_spec(p)
}

/// Accepts the segments that stay active and whose supporting line passes
/// through the sweep position.
pub open spec fn stays_on_line_at(p: RatPoint2d) -> spec_fn(Line2D) -> bool {
    |s: Line2D| !end_rp(s).eq_spec(p) && on_line_spec(p, s)
}

/// Walks the active structure at an event position `p`.  The structure is
/// left holding exactly the active segments that do not end at `p`, in
/// their old order; the result `(containing, lower)` holds exactly the
/// active segments whose line passes through `p` and stay, and exactly
/// those that end at `p`, so nothing active is overlooked: the old
/// structure splits into the retained part and `lower`.
fn sweep_event_scan(st: &mut Vec<Line2D>, p: &RatPoint2d, Ghost(lines): Ghost<Seq<Line2D>>) -> (r:
    (Vec<Line2D>, Vec<Line2D>))
    requires
        status_wf(old(st)@, lines),
        p.wf(),
    ensures
        status_wf(final(st)@, lines),
        final(st)@ == old(st)@.filter(stays_at(*p)),
        r.1@ == old(st)@.filter(ends_at(*p)),
        r.0@ == old(st)@.filter(stays_on_line_at(*p)),
        old(st)@.to_multiset() == final(st)@.to_multiset().add(r.1@.to_multiset()),
        forall|i: int|
            0 <= i < final(st)@.len() ==> old(st)@.contains(#[trigger] final(st)@[i]) && !end_rp(
                final(st)@[i],
            ).eq_spec(*p),
        forall|i: int|
            0 <= i < r.1@.len() ==> old(st)@.contains(#[trigger] r.1@[i]) && end_rp(
                r.1@[i],
            ).eq_spec(*p),
        forall|i: int|
            0 <= i < r.0@.len() ==> old(st)@.contains(#[trigger] r.0@[i]) && !end_rp(
                r.0@[i],
            ).eq_spec(*p) && on_line_spec(*p, r.0@[i]),
        forall|i: int, j: int| 0 <= i < j < r.1@.len() ==> r.1@[i] != r.1@[j],
        forall|i: int, j: int| 0 <= i < j < r.0@.len() ==> r.0@[i] != r.0@[j],
{
    let n: usize = st.len();
    let mut retained: Vec<Line2D> = Vec::new();
    let mut lower: Vec<Line2D> = Vec::new();
    let mut containing: Vec<Line2D> = Vec::new();
    let ghost mut ret_src: Seq<int> = Seq::empty();
    let ghost mut low_src: Seq<int> = Seq::empty();
    let ghost mut con_src: Seq<int> = Seq::empty();
    let mut i: usize = 0;
    while i < n
        invariant
            status_wf(old(st)@, lines),
            st@ == old(st)@,
            p.wf(),
            n == st@.len(),
            i <= n,
            ret_src.len() == retained@.len(),
            low_src.len() == lower@.len(),
            con_src.len() == containing@.len(),
            retained@ == st@.take(i as int).filter(stays_at(*p)),
            lower@ == st@.take(i as int).filter(ends_at(*p)),
            containing@ == st@.take(i as int).filter(stays_on_line_at(*p)),
            forall|k: int|
                0 <= k < ret_src.len() ==> 0 <= #[trigger] ret_src[k] < i && retained@[k]
                    == st@[ret_src[k]] && !end_rp(retained@[k]).eq_spec(*p),
            forall|k: int|
                0 <= k < low_src.len() ==> 0 <= #[trigger] low_src[k] < i && lower@[k]
                    == st@[low_src[k]] && end_rp(lower@[k]).eq_spec(*p),
            forall|k: int|
                0 <= k < con_src.len() ==> 0 <= #[trigger] con_src[k] < i && containing@[k]
                    == st@[con_src[k]] && !end_rp(containing@[k]).eq_spec(*p) && on_line_spec(
                    *p,
                    containing@[k],
                ),
            forall|k1: int, k2: int| 0 <= k1 < k2 < ret_src.len() ==> ret_src[k1] < ret_src[k2],
            forall|k1: int, k2: int| 0 <= k1 < k2 < low_src.len() ==> low_src[k1] < low_src[k2],
            forall|k1: int, k2: int| 0 <= k1 < k2 < con_src.len() ==> con_src[k1] < con_src[k2],
        decreases n - i,
    {
        let seg: Line2D = st[i];
        let e = RatPoint2d::from_point(seg.end);
        proof {
            assert(e == end_rp(seg));
            assert(st@.take(i + 1) =~= st@.take(i as int).push(seg));
            crate::vec_extensions::lemma_filter_push(st@.take(i as int), stays_at(*p), seg);
            crate::vec_extensions::lemma_filter_push(st@.take(i as int), ends_at(*p), seg);
            crate::vec_extensions::lemma_filter_push(st@.take(i as int), stays_on_line_at(*p), seg);
        }
        if e.eq_value(p) {
            lower.push(seg);
            proof {
                low_src = low_src.push(i as int);
            }
        } else {
            retained.push(seg);
            proof {
                ret_src = ret_src.push(i as int);
            }
            if seg.intersects_point(p) {
                containing.push(seg);
                proof {
                    con_src = con_src.push(i as int);
                }
            }
        }
        i = i + 1;
    }
    proof {
        assert(st@.take(n as int) =~= st@);
        crate::vec_extensions::lemma_filter_partition(st@, stays_at(*p), ends_at(*p));
    }
    let ghost ret_view = retained@;
    let ghost low_view = lower@;
    let ghost con_view = containing@;
    *st = retained;
    let result = (containing, lower);
    proof {
        assert(st@ == ret_view);
        assert(result.0@ == con_view);
        assert(result.1@ == low_view);
        assert forall|i: int| 0 <= i < st@.len() implies old(st)@.contains(#[trigger] st@[i])
            && !end_rp(st@[i]).eq_spec(*p) by {
            assert(st@[i] == ret_view[i]);
            assert(ret_view[i] == old(st)@[ret_src[i]]);
        }
        assert forall|i: int, j: int| 0 <= i < j < st@.len() implies pt_lex_le(
            st@[i].start,
            st@[j].start,
        ) && st@[i] != st@[j] by {
            assert(st@[i] == ret_view[i] && st@[j] == ret_view[j]);
            assert(ret_src[i] < ret_src[j]);
            assert(ret_view[i] == old(st)@[ret_src[i]] && ret_view[j] == old(st)@[ret_src[j]]);
        }
        assert forall|i: int, j: int|
            #![trigger st@[i], st@[j]]
            0 <= i < j < st@.len() implies st@[i] != st@[j] by {
            assert(st@[i] == old(st)@[ret_src[i]] && st@[j] == old(st)@[ret_src[j]]);
            assert(ret_src[i] < ret_src[j]);
        }
        assert forall|i: int| 0 <= i < st@.len() implies sweep_seg_wf(
            lines,
            #[trigger] st@[i],
        ) by {
            assert(st@[i] == old(st)@[ret_src[i]]);
        }
        assert forall|i: int| 0 <= i < result.1@.len() implies old(st)@.contains(
            #[trigger] result.1@[i],
        ) && end_rp(result.1@[i]).eq_spec(*p) by {
            assert(result.1@[i] == low_view[i]);
            assert(low_view[i] == old(st)@[low_src[i]]);
        }
        assert forall|i: int| 0 <= i < result.0@.len() implies old(st)@.contains(
            #[trigger] result.0@[i],
        ) && !end_rp(result.0@[i]).eq_spec(*p) && on_line_spec(*p, result.0@[i]) by {
            assert(result.0@[i] == con_view[i]);
            assert(con_view[i] == old(st)@[con_src[i]]);
        }
        assert forall|i: int, j: int| 0 <= i < j < result.1@.len() implies result.1@[i]
            != result.1@[j] by {
            assert(result.1@[i] == low_view[i] && result.1@[j] == low_view[j]);
            assert(low_src[i] < low_src[j]);
            assert(low_view[i] == old(st)@[low_src[i]] && low_view[j] == old(st)@[low_src[j]]);
        }
        assert forall|i: int, j: int| 0 <= i < j < result.0@.len() implies result.0@[i]
            != result.0@[j] by {
            assert(result.0@[i] == con_view[i] && result.0@[j] == con_view[j]);
            assert(con_src[i] < con_src[j]);
            assert(con_view[i] == old(st)@[con_src[i]] && con_view[j] == old(st)@[con_src[j]]);
        }
    }
    result
}

/// Inserts a segment that is not yet active, keeping the start order.
fn status_insert(st: &mut Vec<Line2D>, seg: Line2D, Ghost(lines): Ghost<Seq<Line2D>>)
    requires
        status_wf(old(st)@, lines),
        sweep_seg_wf(lines, seg),
        forall|i: int| 0 <= i < old(st)@.len() ==> #[trigger] old(st)@[i] != seg,
    ensures
        status_wf(final(st)@, lines),
        final(st)@.len() == old(st)@.len() + 1,
        forall|i: int|
            0 <= i < final(st)@.len() ==> old(st)@.contains(#[trigger] final(st)@[i])
                || final(st)@[i] == seg,
        final(st)@.contains(seg),
        exists|pos: int|
            0 <= pos <= old(st)@.len() && final(st)@ == #[trigger] old(st)@.insert(pos, seg),
{
    let n: usize = st.len();
    let mut pos: usize = 0;
    while pos < n && !(seg.start.y < st[pos].start.y || (seg.start.y == st[pos].start.y
        && seg.start.x < st[pos].start.x))
        invariant
            status_wf(old(st)@, lines),
            st@ == old(st)@,
            n == st@.len(),
            pos <= n,
            forall|i: int| 0 <= i < pos ==> pt_lex_le((#[trigger] st@[i]).start, seg.start),
        decreases n - pos,
    {
        pos = pos + 1;
    }
    let ghost before = st@;
    st.insert(pos, seg);
    proof {
        assert(st@[pos as int] == seg);
        assert forall|i: int, j: int| 0 <= i < j < st@.len() implies pt_lex_le(
            st@[i].start,
            st@[j].start,
        ) && st@[i] != st@[j] by {
            if i != pos && j != pos {
                if j < pos {
                    assert(st@[i] == before[i] && st@[j] == before[j]);
                } else if i > pos {
                    assert(st@[i] == before[i - 1] && st@[j] == before[j - 1]);
                } else {
                    assert(st@[i] == before[i] && st@[j] == before[j - 1]);
                }
            } else if j == pos {
                assert(st@[i] == before[i]);
                assert(pt_lex_le(before[i].start, seg.start));
                assert(before[i] != seg);
            } else {
                assert(st@[j] == before[j - 1]);
                assert(pt_lex_lt(seg.start, before[pos as int].start));
                if pos < j - 1 {
                    assert(pt_lex_le(before[pos as int].start, before[j - 1].start));
                } else {
                    assert(pos == j - 1);
                }
                assert(before[j - 1] != seg);
            }
        }
        assert forall|i: int| 0 <= i < st@.len() implies before.contains(#[trigger] st@[i])
            || st@[i] == seg by {
            if i < pos {
                assert(st@[i] == before[i]);
            } else if i > pos {
                assert(st@[i] == before[i - 1]);
            }
        }
    }
}

/// The last active segment whose start precedes `p`: the left neighbor of
/// the sweep position.  Nothing is returned exactly when no active start
/// precedes `p`.
fn status_pred(st: &Vec<Line2D>, p: &RatPoint2d, Ghost(lines): Ghost<Seq<Line2D>>) -> (r: Option<
    usize,
>)
    requires
        status_wf(st@, lines),
        p.wf(),
    ensures
        r matches Some(ix) ==> ix < st@.len() && rp_lex_lt(start_rp(st@[ix as int]), *p) && (
        forall|j: int| ix < j < st@.len() ==> !rp_lex_lt(start_rp(#[trigger] st@[j]), *p)),
        r is None ==> forall|j: int|
            0 <= j < st@.len() ==> !rp_lex_lt(start_rp(#[trigger] st@[j]), *p),
{
    let n: usize = st.len();
    let mut best: Option<usize> = None;
    let mut i: usize = 0;
    while i < n
        invariant
            p.wf(),
            n == st@.len(),
            i <= n,
            best matches Some(ix) ==> ix < i && rp_lex_lt(start_rp(st@[ix as int]), *p) && (
            forall|j: int| ix < j < i ==> !rp_lex_lt(start_rp(#[trigger] st@[j]), *p)),
            best is None ==> forall|j: int|
                0 <= j < i ==> !rp_lex_lt(start_rp(#[trigger] st@[j]), *p),
        decreases n - i,
    {
        let s = RatPoint2d::from_point(st[i].start);
        proof {
            assert(s == start_rp(st@[i as int]));
        }
        if rp_lex_less(&s, p) {
            best = Some(i);
        }
        i = i + 1;
    }
    best
}

/// The first active segment whose start follows `p`: the right neighbor of
/// the sweep position.  Nothing is returned exactly when no active start
/// follows `p`.
fn status_succ(st: &Vec<Line2D>, p: &RatPoint2d, Ghost(lines): Ghost<Seq<Line2D>>) -> (r: Option<
    usize,
>)
    requires
        status_wf(st@, lines),
        p.wf(),
    ensures
        r matches Some(ix) ==> ix < st@.len() && rp_lex_lt(*p, start_rp(st@[ix as int])) && (
        forall|j: int| 0 <= j < ix ==> !rp_lex_lt(*p, start_rp(#[trigger] st@[j]))),
        r is None ==> forall|j: int|
            0 <= j < st@.len() ==> !rp_lex_lt(*p, start_rp(#[trigger] st@[j])),
{
    let n: usize = st.len();
    let mut i: usize = 0;
    while i < n
        invariant
            p.wf(),
            n == st@.len(),
            i <= n,
            forall|j: int| 0 <= j < i ==> !rp_lex_lt(*p, start_rp(#[trigger] st@[j])),
        decreases n - i,
    {
        let s = RatPoint2d::from_point(st[i].start);
        proof {
            assert(s == start_rp(st@[i as int]));
        }
        if rp_lex_less(p, &s) {
            return Some(i);
        }
        i = i + 1;
    }
    None
}

/// Tests two neighboring active segments for a crossing ahead of the sweep
/// and queues it as a future event if it is not queued yet: when the exact
/// solver reports a point strictly after the current position that carries
/// no event, exactly one fresh segment-free event appears at it, keeping
/// the order; in every other case the queue is left exactly as it was.
fn find_next_intersection_point(
    left_line: &Line2D,
    right_line: &Line2D,
    point: &RatPoint2d,
    event_queue: &mut Vec<Event>,
    Ghost(lines): Ghost<Seq<Line2D>>,
)
    requires
        queue_wf(old(event_queue)@, lines),
        point.wf(),
    ensures
        queue_wf(final(event_queue)@, lines),
        forall|i: int|
            0 <= i < final(event_queue)@.len() ==> (exists|j: int|
                0 <= j < old(event_queue)@.len() && final(event_queue)@[i] == #[trigger] old(
                    event_queue,
                )@[j]) || ((#[trigger] final(event_queue)@[i]).segments@.len() == 0 && rp_lex_lt(
                *point,
                final(event_queue)@[i].point,
            )),
        ({
            let crossing = intersect_spec(*left_line, *right_line);
            let ahead = crossing is Some && rp_lex_lt(*point, crossing.unwrap())
                && !has_queued_key(old(event_queue)@, crossing.unwrap());
            &&& (ahead ==> (exists|pos: int, ev: Event|
                0 <= pos <= old(event_queue)@.len() && final(event_queue)@ == #[trigger] old(
                    event_queue,
                )@.insert(pos, ev) && ev.point == crossing.unwrap() && ev.segments@.len() == 0))
            &&& (!ahead ==> final(event_queue)@ == old(event_queue)@)
        }),
        forall|s: Line2D|
            #[trigger] attached(old(event_queue)@, s) ==> attached(final(event_queue)@, s),
{
    match left_line.intersect(right_line) {
        Option::Some(p) => {
            if rp_lex_less(point, &p) {
                queue_insert_event(event_queue, p, Ghost(lines));
            }
        },
        Option::None => {},
    }
}


/// The code of an ordered pair of input indices.
pub open spec fn pair_code(i: int, j: int, n: int) -> int {
    i * n + j
}

/// A discovered crossing is accounted for: it is at or behind the sweep
/// position, or an event for it is queued.
pub open spec fn settled(v: RatPoint2d, lp: Option<RatPoint2d>, q: Seq<Event>) -> bool {
    (lp matches Some(c) && rp_lex_le(v, c)) || has_queued_key(q, v)
}

/// The pair of input segments coded `c` has a crossing, and that crossing
/// is accounted for.  Every charged code satisfies this, which is why each
/// pair's crossing is enqueued at most once over the whole sweep.
pub open spec fn charged_ok(lines: Seq<Line2D>, c: int, lp: Option<RatPoint2d>, q: Seq<Event>) -> bool {
    exists|i: int, j: int|
        0 <= i < lines.len() && 0 <= j < lines.len() && c == #[trigger] pair_code(
            i,
            j,
            lines.len() as int,
        ) && intersect_spec(norm_spec(lines[i]), norm_spec(lines[j])) is Some && settled(
            intersect_spec(norm_spec(lines[i]), norm_spec(lines[j])).unwrap(),
            lp,
            q,
        )
}

/// Pair codes are injective.
proof fn lemma_pair_code_unique(a: int, b: int, i: int, j: int, n: int)
    by (nonlinear_arith)
    requires
        0 <= a,
        0 <= i,
        0 <= b < n,
        0 <= j < n,
        a * n + b == i * n + j,
    ensures
        a == i,
        b == j,
{
}

/// A point the solver returns is a well-formed rational point.
proof fn lemma_intersect_wf(a: Line2D, b: Line2D)
    ensures
        intersect_spec(a, b) matches Some(p) ==> p.wf(),
{
    if intersect_spec(a, b) is Some {
        let d = det_spec(a, b);
        crate::numerics::lemma_mul_range(
            (a.end.x - a.start.x) as int,
            (b.end.y - b.start.y) as int,
            1048576,
            1048576,
        );
        crate::numerics::lemma_mul_range(
            (b.end.x - b.start.x) as int,
            (a.end.y - a.start.y) as int,
            1048576,
            1048576,
        );
        assert(crate::numerics::abs_int(d) < 0x8000000000000000);
    }
}

/// Popping the least event keeps every charged pair accounted for: a
/// crossing settled behind the old position stays behind the new one, and
/// a queued crossing either stays queued or is the popped position itself.
proof fn lemma_charged_after_pop(
    lines: Seq<Line2D>,
    q0: Seq<Event>,
    point: RatPoint2d,
    lp_old: Option<RatPoint2d>,
    charged: Set<int>,
)
    requires
        q0.len() > 0,
        point == q0[0].point,
        point.wf(),
        queue_wf(q0, lines),
        lp_old matches Some(c) ==> c.wf() && rp_lex_lt(c, point),
        forall|c: int| charged.contains(c) ==> charged_ok(lines, c, lp_old, q0),
    ensures
        forall|c: int|
            charged.contains(c) ==> charged_ok(lines, c, Option::Some(point), q0.remove(0)),
{
    assert forall|c: int| charged.contains(c) implies charged_ok(
        lines,
        c,
        Option::Some(point),
        q0.remove(0),
    ) by {
        let (i, j) = choose|i: int, j: int|
            0 <= i < lines.len() && 0 <= j < lines.len() && c == #[trigger] pair_code(
                i,
                j,
                lines.len() as int,
            ) && intersect_spec(norm_spec(lines[i]), norm_spec(lines[j])) is Some && settled(
                intersect_spec(norm_spec(lines[i]), norm_spec(lines[j])).unwrap(),
                lp_old,
                q0,
            );
        let v = intersect_spec(norm_spec(lines[i]), norm_spec(lines[j])).unwrap();
        lemma_intersect_wf(norm_spec(lines[i]), norm_spec(lines[j]));
        let behind = match lp_old {
            Option::Some(c0) => rp_lex_le(v, c0),
            Option::None => false,
        };
        if behind {
            match lp_old {
                Option::Some(c0) => {
                    crate::lexicographic2d::lemma_rp_lex_le_lt(v, c0, point);
                },
                Option::None => {},
            }
            assert(settled(v, Option::Some(point), q0.remove(0)));
        } else {
            assert(has_queued_key(q0, v));
            let w = choose|w: int| 0 <= w < q0.len() && (#[trigger] q0[w].point).eq_spec(v);
            if w == 0 {
                assert(rp_lex_le(v, point)) by {
                    assert(point.eq_spec(v));
                }
            } else {
                assert(q0.remove(0)[w - 1] == q0[w]);
                assert(has_queued_key(q0.remove(0), v));
            }
            assert(settled(v, Option::Some(point), q0.remove(0)));
        }
        assert(charged_ok(lines, c, Option::Some(point), q0.remove(0)));
    }
}

/// Accounts for one neighbor check: if it queued a fresh crossing, that
/// crossing's pair is charged — it was not charged before, because its
/// crossing was neither behind the sweep nor queued.  The queue and the
/// charge grow together, so their difference never changes.
proof fn charge_crossing(
    lines: Seq<Line2D>,
    left: Line2D,
    right: Line2D,
    point: RatPoint2d,
    qb: Seq<Event>,
    qa: Seq<Event>,
    charged: Set<int>,
) -> (r: Set<int>)
    requires
        point.wf(),
        sweep_seg_wf(lines, left),
        sweep_seg_wf(lines, right),
        ({
            let crossing = intersect_spec(left, right);
            let ahead = crossing is Some && rp_lex_lt(point, crossing.unwrap())
                && !has_queued_key(qb, crossing.unwrap());
            &&& (ahead ==> (exists|pos: int, ev: Event|
                0 <= pos <= qb.len() && qa == #[trigger] qb.insert(pos, ev) && ev.point
                    == crossing.unwrap() && ev.segments@.len() == 0))
            &&& (!ahead ==> qa == qb)
        }),
        charged.finite(),
        charged.subset_of(vstd::set_lib::set_int_range(0, (lines.len() * lines.len()) as int)),
        forall|c: int| charged.contains(c) ==> charged_ok(lines, c, Option::Some(point), qb),
    ensures
        r.finite(),
        r.subset_of(vstd::set_lib::set_int_range(0, (lines.len() * lines.len()) as int)),
        forall|c: int| r.contains(c) ==> charged_ok(lines, c, Option::Some(point), qa),
        qa.len() + charged.len() == qb.len() + r.len(),
{
    broadcast use vstd::set::group_set_axioms;

    let nlen = lines.len() as int;
    let crossing = intersect_spec(left, right);
    let ahead = crossing is Some && rp_lex_lt(point, crossing.unwrap()) && !has_queued_key(
        qb,
        crossing.unwrap(),
    );
    if !ahead {
        assert(qa == qb);
        charged
    } else {
        let v = crossing.unwrap();
        lemma_intersect_wf(left, right);
        let (pos, ev) = choose|pos: int, ev: Event|
            0 <= pos <= qb.len() && qa == #[trigger] qb.insert(pos, ev) && ev.point == v
                && ev.segments@.len() == 0;
        qb.insert_ensures(pos, ev);
        let aa = choose|x: int| 0 <= x < lines.len() && #[trigger] norm_spec(lines[x]) == left;
        let bb = choose|x: int| 0 <= x < lines.len() && #[trigger] norm_spec(lines[x]) == right;
        let c = pair_code(aa, bb, nlen);
        assert(0 <= c < nlen * nlen) by (nonlinear_arith)
            requires
                c == aa * nlen + bb,
                0 <= aa < nlen,
                0 <= bb < nlen,
        ;
        if charged.contains(c) {
            let (i, j) = choose|i: int, j: int|
                0 <= i < lines.len() && 0 <= j < lines.len() && c == #[trigger] pair_code(
                    i,
                    j,
                    nlen,
                ) && intersect_spec(norm_spec(lines[i]), norm_spec(lines[j])) is Some && settled(
                    intersect_spec(norm_spec(lines[i]), norm_spec(lines[j])).unwrap(),
                    Option::Some(point),
                    qb,
                );
            lemma_pair_code_unique(aa, bb, i, j, nlen);
            assert(norm_spec(lines[i]) == left && norm_spec(lines[j]) == right);
            let vc = intersect_spec(norm_spec(lines[i]), norm_spec(lines[j])).unwrap();
            assert(vc == v);
            if rp_lex_le(v, point) {
                crate::lexicographic2d::lemma_rp_lex_asym(point, v);
                assert(false);
            }
            assert(has_queued_key(qb, v));
            assert(false);
        }
        let r = charged.insert(c);
        assert(r.len() == charged.len() + 1);
        assert(qa.len() == qb.len() + 1);
        assert forall|cc: int| r.contains(cc) implies charged_ok(
            lines,
            cc,
            Option::Some(point),
            qa,
        ) by {
            if cc == c {
                assert(qa[pos] == ev);
                assert(ev.point.eq_spec(v));
                assert(has_queued_key(qa, v));
                assert(settled(v, Option::Some(point), qa));
                assert(intersect_spec(norm_spec(lines[aa]), norm_spec(lines[bb])) is Some);
                assert(charged_ok(lines, cc, Option::Some(point), qa));
            } else {
                assert(charged.contains(cc));
                let (i, j) = choose|i: int, j: int|
                    0 <= i < lines.len() && 0 <= j < lines.len() && cc == #[trigger] pair_code(
                        i,
                        j,
                        nlen,
                    ) && intersect_spec(norm_spec(lines[i]), norm_spec(lines[j])) is Some
                        && settled(
                        intersect_spec(norm_spec(lines[i]), norm_spec(lines[j])).unwrap(),
                        Option::Some(point),
                        qb,
                    );
                let vc = intersect_spec(norm_spec(lines[i]), norm_spec(lines[j])).unwrap();
                if has_queued_key(qb, vc) {
                    let w = choose|w: int|
                        0 <= w < qb.len() && (#[trigger] qb[w].point).eq_spec(vc);
                    if w < pos {
                        assert(qa[w] == qb[w]);
                    } else {
                        assert(qa[w + 1] == qb[w]);
                    }
                    assert(has_queued_key(qa, vc));
                }
                assert(settled(vc, Option::Some(point), qa));
                assert(charged_ok(lines, cc, Option::Some(point), qa));
            }
        }
        r
    }
}

/// Some already-reported point has this value.
pub open spec fn reported(pts: Seq<RatPoint2d>, v: RatPoint2d) -> bool {
    exists|k: int| 0 <= k < pts.len() && (#[trigger] pts[k]).eq_spec(v)
}

/// Two distinct normalized input segments share their upper endpoint.
pub open spec fn shared_start_pair(lines: Seq<Line2D>, i: int, j: int) -> bool {
    &&& 0 <= i < lines.len()
    &&& 0 <= j < lines.len()
    &&& norm_spec(lines[i]) != norm_spec(lines[j])
    &&& start_rp(norm_spec(lines[i])).eq_spec(start_rp(norm_spec(lines[j])))
}

/// Sweep-line intersection detection.  Returns nothing when any input
/// segment is out of the supported coordinate range; otherwise processes
/// the queued endpoint and discovered-intersection events in lexicographic
/// order, to the last event, and reports every event position where at
/// least two distinct active or starting segments meet.  The loop
/// provably terminates — each pair of input segments has its crossing
/// queued at most once — so no event is left unprocessed.  Every reported
/// point lies on the supporting lines of two distinct input segments, the
/// points come back in strictly increasing lexicographic order, so none
/// is repeated, and every position where two distinct normalized segments
/// share their upper endpoint is guaranteed to be reported.
#[verifier::rlimit(100)]
pub fn line_sweep_intersection(lines: &Vec<Line2D>) -> (r: Option<Vec<RatPoint2d>>)
    ensures
        (r is None) <==> (exists|i: int|
            0 <= i < lines@.len() && !(#[trigger] lines@[i]).in_range()),
        r matches Some(pts) ==> ({
            &&& forall|k: int|
                0 <= k < pts@.len() ==> (#[trigger] pts@[k]).wf() && on_two_input_lines(
                    lines@,
                    pts@[k],
                )
            &&& forall|k1: int, k2: int|
                0 <= k1 < k2 < pts@.len() ==> rp_lex_lt(pts@[k1], pts@[k2])
            &&& forall|i: int, j: int|
                #[trigger] shared_start_pair(lines@, i, j) ==> reported(
                    pts@,
                    start_rp(norm_spec(lines@[i])),
                )
        }),
{
    let mut event_queue: Vec<Event> = Vec::new();
    let n: usize = lines.len();
    let mut i: usize = 0;
    while i < n
        invariant
            n == lines@.len(),
            i <= n,
            queue_wf(event_queue@, lines@),
            forall|k: int| 0 <= k < i ==> (#[trigger] lines@[k]).in_range(),
            forall|k: int| 0 <= k < i ==> attached(event_queue@, #[trigger] norm_spec(lines@[k])),
        decreases n - i,
    {
        if !lines[i].is_in_range() {
            return None;
        }
        let norm = LexicographicLine2d::new_normalized(lines[i]);
        let seg = norm.line();
        proof {
            assert(seg == norm_spec(lines@[i as int]));
            assert(sweep_seg_wf(lines@, seg));
        }
        queue_add_upper(&mut event_queue, seg, Ghost(lines@));
        let e = RatPoint2d::from_point(seg.end);
        queue_insert_event(&mut event_queue, e, Ghost(lines@));
        i = i + 1;
    }
    let mut status: Vec<Line2D> = Vec::new();
    let mut intersections: Vec<RatPoint2d> = Vec::new();
    let ghost mut lp: Option<RatPoint2d> = Option::None;
    let ghost mut charged: Set<int> = Set::empty();
    proof {
        assert forall|a: int, b: int| #[trigger] shared_start_pair(lines@, a, b) implies reported(
            intersections@,
            start_rp(norm_spec(lines@[a])),
        ) || (attached(event_queue@, norm_spec(lines@[a])) && attached(
            event_queue@,
            norm_spec(lines@[b]),
        )) by {
            assert(attached(event_queue@, norm_spec(lines@[a])));
            assert(attached(event_queue@, norm_spec(lines@[b])));
        }
    }
    while event_queue.len() > 0
        invariant
            n == lines@.len(),
            forall|k: int| 0 <= k < lines@.len() ==> (#[trigger] lines@[k]).in_range(),
            queue_wf(event_queue@, lines@),
            status_wf(status@, lines@),
            lp is None ==> status@.len() == 0 && intersections@.len() == 0,
            lp matches Some(c) ==> c.wf() && (forall|t: int|
                0 <= t < event_queue@.len() ==> rp_lex_lt(
                    c,
                    (#[trigger] event_queue@[t]).point,
                )) && (forall|t: int|
                0 <= t < status@.len() ==> rp_lex_le(start_rp(#[trigger] status@[t]), c)) && (
            forall|t: int| 0 <= t < intersections@.len() ==> rp_lex_le(#[trigger] intersections@[t], c)),
            forall|k: int|
                0 <= k < intersections@.len() ==> (#[trigger] intersections@[k]).wf()
                    && on_two_input_lines(lines@, intersections@[k]),
            forall|k1: int, k2: int|
                0 <= k1 < k2 < intersections@.len() ==> rp_lex_lt(
                    intersections@[k1],
                    intersections@[k2],
                ),
            charged.finite(),
            charged.subset_of(vstd::set_lib::set_int_range(0, (lines@.len() * lines@.len()) as int)),
            forall|c: int|
                #[trigger] charged.contains(c) ==> charged_ok(lines@, c, lp, event_queue@),
            forall|a: int, b: int|
                #[trigger] shared_start_pair(lines@, a, b) ==> reported(
                    intersections@,
                    start_rp(norm_spec(lines@[a])),
                ) || (attached(event_queue@, norm_spec(lines@[a])) && attached(
                    event_queue@,
                    norm_spec(lines@[b]),
                )),
        decreases event_queue@.len() + ((lines@.len() * lines@.len()) as int - charged.len()),
    {
        let ghost q0 = event_queue@;
        let ghost charged0 = charged;
        proof {
            vstd::set_lib::lemma_int_range(0, (lines@.len() * lines@.len()) as int);
            vstd::set_lib::lemma_len_subset(
                charged,
                vstd::set_lib::set_int_range(0, (lines@.len() * lines@.len()) as int),
            );
        }
        let ev = event_queue.remove(0);
        let point: RatPoint2d = ev.point;
        let upper: Vec<Line2D> = ev.segments;
        let ghost lp_old = lp;
        let ghost st_before = status@;
        proof {
            assert(event_wf(q0[0], lines@));
            assert(point.wf());
            assert forall|k: int| 0 <= k < upper@.len() implies sweep_seg_wf(
                lines@,
                #[trigger] upper@[k],
            ) && start_rp(upper@[k]).eq_spec(point) by {
                assert(upper@[k] == q0[0].segments@[k]);
            }
            assert forall|t1: int, t2: int|
                0 <= t1 < t2 < upper@.len() implies upper@[t1] != upper@[t2] by {
                assert(upper@[t1] == q0[0].segments@[t1] && upper@[t2] == q0[0].segments@[t2]);
            }
            assert forall|t: int| 0 <= t < event_queue@.len() implies rp_lex_lt(
                point,
                (#[trigger] event_queue@[t]).point,
            ) by {
                assert(event_queue@[t] == q0[t + 1]);
            }
            match lp_old {
                Option::Some(c) => {
                    assert(rp_lex_lt(c, q0[0].point));
                },
                Option::None => {},
            }
            lp = Option::Some(point);
            lemma_charged_after_pop(lines@, q0, point, lp_old, charged);
            assert(event_queue@ == q0.remove(0));
            assert forall|t: int| 0 <= t < status@.len() implies rp_lex_lt(
                start_rp(#[trigger] status@[t]),
                point,
            ) by {
                match lp_old {
                    Option::Some(c) => {
                        crate::lexicographic2d::lemma_rp_lex_le_lt(
                            start_rp(status@[t]),
                            c,
                            point,
                        );
                    },
                    Option::None => {
                        assert(false);
                    },
                }
            }
        }
        let ghost q_after_pop = event_queue@;
        let sc = sweep_event_scan(&mut status, &point, Ghost(lines@));
        let containing = sc.0;
        let lower = sc.1;
        proof {
            assert forall|t: int| 0 <= t < status@.len() implies rp_lex_lt(
                start_rp(#[trigger] status@[t]),
                point,
            ) by {
                let idx = choose|idx: int|
                    0 <= idx < st_before.len() && st_before[idx] == status@[t];
                assert(rp_lex_lt(start_rp(st_before[idx]), point));
            }
            assert forall|t: int| 0 <= t < lower@.len() implies rp_lex_lt(
                start_rp(#[trigger] lower@[t]),
                point,
            ) && sweep_seg_wf(lines@, lower@[t]) by {
                let idx = choose|idx: int|
                    0 <= idx < st_before.len() && st_before[idx] == lower@[t];
                assert(rp_lex_lt(start_rp(st_before[idx]), point));
                assert(sweep_seg_wf(lines@, st_before[idx]));
            }
            assert forall|t: int| 0 <= t < containing@.len() implies rp_lex_lt(
                start_rp(#[trigger] containing@[t]),
                point,
            ) && sweep_seg_wf(lines@, containing@[t]) by {
                let idx = choose|idx: int|
                    0 <= idx < st_before.len() && st_before[idx] == containing@[t];
                assert(rp_lex_lt(start_rp(st_before[idx]), point));
                assert(sweep_seg_wf(lines@, st_before[idx]));
            }
        }
        let ghost inter_start = intersections@;
        let many: bool = if upper.len() >= 2 {
            true
        } else if upper.len() == 1 {
            lower.len() >= 1 || containing.len() >= 1
        } else {
            lower.len() >= 2 || containing.len() >= 2 || (lower.len() == 1 && containing.len()
                == 1)
        };
        if many {
            proof {
                if upper@.len() >= 2 {
                    lemma_on_line_at_endpoint(point, upper@[0], true);
                    lemma_on_line_at_endpoint(point, upper@[1], true);
                    assert(is_meet_pair(lines@, point, upper@[0], upper@[1]));
                } else if upper@.len() == 1 && lower@.len() >= 1 {
                    lemma_on_line_at_endpoint(point, upper@[0], true);
                    lemma_on_line_at_endpoint(point, lower@[0], false);
                    if upper@[0] == lower@[0] {
                        lemma_rp_lex_asym(start_rp(lower@[0]), point);
                        assert(false);
                    }
                    assert(is_meet_pair(lines@, point, upper@[0], lower@[0]));
                } else if upper@.len() == 1 {
                    lemma_on_line_at_endpoint(point, upper@[0], true);
                    if upper@[0] == containing@[0] {
                        lemma_rp_lex_asym(start_rp(containing@[0]), point);
                        assert(false);
                    }
                    assert(is_meet_pair(lines@, point, upper@[0], containing@[0]));
                } else if lower@.len() >= 2 {
                    lemma_on_line_at_endpoint(point, lower@[0], false);
                    lemma_on_line_at_endpoint(point, lower@[1], false);
                    assert(is_meet_pair(lines@, point, lower@[0], lower@[1]));
                } else if containing@.len() >= 2 {
                    assert(is_meet_pair(lines@, point, containing@[0], containing@[1]));
                } else {
                    lemma_on_line_at_endpoint(point, lower@[0], false);
                    assert(end_rp(lower@[0]).eq_spec(point));
                    assert(!end_rp(containing@[0]).eq_spec(point));
                    assert(lower@[0] != containing@[0]);
                    assert(is_meet_pair(lines@, point, lower@[0], containing@[0]));
                }
                assert(on_two_input_lines(lines@, point));
            }
            let ghost inter_before = intersections@;
            intersections.push(point);
            proof {
                assert forall|k1: int, k2: int|
                    0 <= k1 < k2 < intersections@.len() implies rp_lex_lt(
                    intersections@[k1],
                    intersections@[k2],
                ) by {
                    if k2 == intersections@.len() - 1 {
                        assert(intersections@[k1] == inter_before[k1]);
                        match lp_old {
                            Option::Some(c) => {
                                crate::lexicographic2d::lemma_rp_lex_le_lt(
                                    inter_before[k1],
                                    c,
                                    point,
                                );
                            },
                            Option::None => {
                                assert(false);
                            },
                        }
                    } else {
                        assert(intersections@[k1] == inter_before[k1] && intersections@[k2]
                            == inter_before[k2]);
                    }
                }
            }
        }
        let mut k: usize = 0;
        while k < upper.len()
            invariant
                n == lines@.len(),
                point.wf(),
                status_wf(status@, lines@),
                k <= upper@.len(),
                forall|t: int|
                    0 <= t < upper@.len() ==> sweep_seg_wf(lines@, #[trigger] upper@[t])
                        && start_rp(upper@[t]).eq_spec(point),
                forall|t1: int, t2: int|
                    0 <= t1 < t2 < upper@.len() ==> upper@[t1] != upper@[t2],
                forall|t: int|
                    0 <= t < status@.len() ==> rp_lex_lt(start_rp(#[trigger] status@[t]), point)
                        || (exists|m: int| 0 <= m < k && status@[t] == upper@[m]),
            decreases upper@.len() - k,
        {
            let seg = upper[k];
            proof {
                assert forall|t: int| 0 <= t < status@.len() implies #[trigger] status@[t]
                    != seg by {
                    if status@[t] == seg {
                        if rp_lex_lt(start_rp(status@[t]), point) {
                            lemma_rp_lex_asym(start_rp(seg), point);
                        } else {
                            let m = choose|m: int| 0 <= m < k && status@[t] == upper@[m];
                            assert(upper@[m] != upper@[k as int]);
                        }
                    }
                }
            }
            let ghost st_mid = status@;
            status_insert(&mut status, seg, Ghost(lines@));
            proof {
                assert forall|t: int|
                    0 <= t < status@.len() implies rp_lex_lt(
                    start_rp(#[trigger] status@[t]),
                    point,
                ) || (exists|m: int| 0 <= m < k + 1 && status@[t] == upper@[m]) by {
                    if status@[t] == seg {
                        assert(status@[t] == upper@[k as int]);
                    } else {
                        let idx = choose|idx: int|
                            0 <= idx < st_mid.len() && st_mid[idx] == status@[t];
                        assert(rp_lex_lt(start_rp(st_mid[idx]), point) || (exists|m: int|
                            0 <= m < k && st_mid[idx] == upper@[m]));
                    }
                }
            }
            k = k + 1;
        }
        proof {
            assert forall|t: int| 0 <= t < status@.len() implies rp_lex_le(
                start_rp(#[trigger] status@[t]),
                point,
            ) by {
                if !rp_lex_lt(start_rp(status@[t]), point) {
                    let m = choose|m: int|
                        0 <= m < upper@.len() && status@[t] == upper@[m];
                    assert(start_rp(upper@[m]).eq_spec(point));
                }
            }
        }
        if upper.len() == 0 {
            let li_opt = status_pred(&status, &point, Ghost(lines@));
            match li_opt {
                Option::Some(li) => {
                    let ri_opt = status_succ(&status, &point, Ghost(lines@));
                    match ri_opt {
                        Option::Some(ri) => {
                            let a = status[li];
                            let b = status[ri];
                            let ghost qb = event_queue@;
                            find_next_intersection_point(
                                &a,
                                &b,
                                &point,
                                &mut event_queue,
                                Ghost(lines@),
                            );
                            proof {
                                charged = charge_crossing(
                                    lines@,
                                    a,
                                    b,
                                    point,
                                    qb,
                                    event_queue@,
                                    charged,
                                );
                                assert forall|t: int|
                                    0 <= t < event_queue@.len() implies rp_lex_lt(
                                    point,
                                    (#[trigger] event_queue@[t]).point,
                                ) by {
                                    if exists|j: int|
                                        0 <= j < qb.len() && event_queue@[t] == #[trigger] qb[j] {
                                        let j = choose|j: int|
                                            0 <= j < qb.len() && event_queue@[t] == #[trigger] qb[j];
                                        assert(rp_lex_lt(point, qb[j].point));
                                    }
                                }
                            }
                        },
                        Option::None => {},
                    }
                },
                Option::None => {},
            }
        } else {
            let first = upper[0];
            let last = upper[upper.len() - 1];
            let li_opt = status_pred(&status, &point, Ghost(lines@));
            match li_opt {
                Option::Some(li) => {
                    let a = status[li];
                    let ghost qb = event_queue@;
                    find_next_intersection_point(
                        &a,
                        &first,
                        &point,
                        &mut event_queue,
                        Ghost(lines@),
                    );
                    proof {
                        charged = charge_crossing(
                            lines@,
                            a,
                            first,
                            point,
                            qb,
                            event_queue@,
                            charged,
                        );
                        assert forall|t: int|
                            0 <= t < event_queue@.len() implies rp_lex_lt(
                            point,
                            (#[trigger] event_queue@[t]).point,
                        ) by {
                            if exists|j: int|
                                0 <= j < qb.len() && event_queue@[t] == #[trigger] qb[j] {
                                let j = choose|j: int|
                                    0 <= j < qb.len() && event_queue@[t] == #[trigger] qb[j];
                                assert(rp_lex_lt(point, qb[j].point));
                            }
                        }
                    }
                    let ri_opt = status_succ(&status, &point, Ghost(lines@));
                    match ri_opt {
                        Option::Some(ri) => {
                            let b = status[ri];
                            let ghost qb2 = event_queue@;
                            find_next_intersection_point(
                                &last,
                                &b,
                                &point,
                                &mut event_queue,
                                Ghost(lines@),
                            );
                            proof {
                                charged = charge_crossing(
                                    lines@,
                                    last,
                                    b,
                                    point,
                                    qb2,
                                    event_queue@,
                                    charged,
                                );
                                assert forall|t: int|
                                    0 <= t < event_queue@.len() implies rp_lex_lt(
                                    point,
                                    (#[trigger] event_queue@[t]).point,
                                ) by {
                                    if exists|j: int|
                                        0 <= j < qb2.len() && event_queue@[t] == #[trigger] qb2[j] {
                                        let j = choose|j: int|
                                            0 <= j < qb2.len() && event_queue@[t]
                                                == #[trigger] qb2[j];
                                        assert(rp_lex_lt(point, qb2[j].point));
                                    }
                                }
                            }
                        },
                        Option::None => {},
                    }
                },
                Option::None => {},
            }
        }
        proof {
            assert forall|t: int| 0 <= t < intersections@.len() implies rp_lex_le(
                #[trigger] intersections@[t],
                point,
            ) by {
                if t < inter_start.len() {
                    assert(intersections@[t] == inter_start[t]);
                    match lp_old {
                        Option::Some(c) => {
                            crate::lexicographic2d::lemma_rp_lex_le_lt(inter_start[t], c, point);
                        },
                        Option::None => {
                            assert(false);
                        },
                    }
                } else {
                    assert(intersections@[t] == point);
                }
            }
            assert(event_queue@.len() + charged0.len() + 1 == q0.len() + charged.len());
            vstd::set_lib::lemma_int_range(0, (lines@.len() * lines@.len()) as int);
            vstd::set_lib::lemma_len_subset(
                charged,
                vstd::set_lib::set_int_range(0, (lines@.len() * lines@.len()) as int),
            );
            if many {
                assert(intersections@ == inter_start.push(point));
            } else {
                assert(intersections@ == inter_start);
            }
            assert forall|a: int, b: int| #[trigger] shared_start_pair(lines@, a, b) implies
                reported(intersections@, start_rp(norm_spec(lines@[a]))) || (attached(
                event_queue@,
                norm_spec(lines@[a]),
            ) && attached(event_queue@, norm_spec(lines@[b]))) by {
                let sa = norm_spec(lines@[a]);
                let sb = norm_spec(lines@[b]);
                if reported(inter_start, start_rp(sa)) {
                    let k = choose|k: int|
                        0 <= k < inter_start.len() && (#[trigger] inter_start[k]).eq_spec(
                            start_rp(sa),
                        );
                    assert(intersections@[k] == inter_start[k]);
                    assert(reported(intersections@, start_rp(sa)));
                } else {
                    assert(attached(q0, sa) && attached(q0, sb));
                    assert(start_rp(sb).eq_spec(start_rp(sa)));
                    lemma_attached_same_event(q0, lines@, sa, sb);
                    let jj = choose|j: int|
                        0 <= j < q0.len() && (#[trigger] q0[j]).segments@.contains(sa)
                            && q0[j].segments@.contains(sb) && q0[j].point.eq_spec(start_rp(sa));
                    if jj == 0 {
                        assert(upper@ == q0[0].segments@);
                        let m1 = choose|m: int|
                            0 <= m < upper@.len() && #[trigger] upper@[m] == sa;
                        let m2 = choose|m: int|
                            0 <= m < upper@.len() && #[trigger] upper@[m] == sb;
                        assert(m1 != m2);
                        assert(upper@.len() >= 2);
                        assert(intersections@ == inter_start.push(point));
                        assert(point == q0[0].point);
                        assert(intersections@[intersections@.len() - 1] == point);
                        assert(point.eq_spec(start_rp(sa)));
                        assert(reported(intersections@, start_rp(sa)));
                    } else {
                        assert(q_after_pop[jj - 1] == q0[jj]);
                        assert(attached(q_after_pop, sa));
                        assert(attached(q_after_pop, sb));
                        assert(attached(event_queue@, sa));
                        assert(attached(event_queue@, sb));
                    }
                }
            }
        }
    }
    Some(intersections)
}

/// A parallel pair yields no point from the exact solver, so the naive
/// scan over pairwise-parallel segments reports nothing.
proof fn lemma_parallel_row_empty(lines: Seq<Line2D>, i: int, j: int)
    requires
        forall|a: int, b: int|
            0 <= a < lines.len() && 0 <= b < lines.len() && a != b ==> #[trigger] det_spec(
                lines[a],
                lines[b],
            ) == 0,
        i < j,
    ensures
        row_points(lines, i, j) == Seq::<RatPoint2d>::empty(),
    decreases lines.len() - j,
{
    if j < 0 || j >= lines.len() || i < 0 || i >= lines.len() {
    } else {
        assert(det_spec(lines[i], lines[j]) == 0);
        assert(intersect_spec(lines[i], lines[j]) is None);
        lemma_parallel_row_empty(lines, i, j + 1);
    }
}

/// Parallel, non-intersecting inputs: the naive oracle reports no point at
/// all when every pair of distinct input segments has a zero determinant.
pub proof fn lemma_parallel_naive_empty(lines: Seq<Line2D>, i: int)
    requires
        forall|a: int, b: int|
            0 <= a < lines.len() && 0 <= b < lines.len() && a != b ==> #[trigger] det_spec(
                lines[a],
                lines[b],
            ) == 0,
    ensures
        naive_points(lines, i) == Seq::<RatPoint2d>::empty(),
    decreases lines.len() - i,
{
    if i < 0 || i >= lines.len() {
    } else {
        lemma_parallel_row_empty(lines, i, i + 1);
        lemma_parallel_naive_empty(lines, i + 1);
        assert(naive_points(lines, i) =~= Seq::<RatPoint2d>::empty());
    }
}

/// A point on a supporting line stays on it when the segment is walked
/// backwards.
proof fn lemma_on_line_reverse(p: RatPoint2d, l: Line2D)
    ensures
        on_line_spec(p, l.reverse_spec()) <==> on_line_spec(p, l),
{
    let rl = l.reverse_spec();
    let d = p.den as int;
    let u = p.xn - l.end.x * d;
    let v = p.yn - l.end.y * d;
    let w = p.xn - l.start.x * d;
    let z = p.yn - l.start.y * d;
    let gp = l.start.y - l.end.y;
    let gq = l.start.x - l.end.x;
    assert(u - w == gq * d) by (nonlinear_arith)
        requires
            u == p.xn - l.end.x * d,
            w == p.xn - l.start.x * d,
            gq == l.start.x - l.end.x,
    ;
    assert(v - z == gp * d) by (nonlinear_arith)
        requires
            v == p.yn - l.end.y * d,
            z == p.yn - l.start.y * d,
            gp == l.start.y - l.end.y,
    ;
    assert(u * gp - v * gq == w * gp - z * gq) by (nonlinear_arith)
        requires
            u - w == gq * d,
            v - z == gp * d,
    ;
    assert((p.xn - rl.start.x * p.den) * (rl.end.y - rl.start.y) - (p.yn - rl.start.y * p.den) * (
    rl.end.x - rl.start.x) == u * gp - v * gq) by (nonlinear_arith)
        requires
            rl.start == l.end,
            rl.end == l.start,
            u == p.xn - l.end.x * d,
            v == p.yn - l.end.y * d,
            gp == l.start.y - l.end.y,
            gq == l.start.x - l.end.x,
            d == p.den,
    ;
    assert((p.xn - l.start.x * p.den) * (l.end.y - l.start.y) - (p.yn - l.start.y * p.den) * (
    l.end.x - l.start.x) == -(w * gp - z * gq)) by (nonlinear_arith)
        requires
            w == p.xn - l.start.x * d,
            z == p.yn - l.start.y * d,
            gp == l.start.y - l.end.y,
            gq == l.start.x - l.end.x,
            d == p.den,
    ;
    assert(u * gp - v * gq == 0 <==> w * gp - z * gq == 0);
}

/// Reversing either operand flips the sign of the direction determinant.
proof fn lemma_det_reverse(a: Line2D, b: Line2D)
    ensures
        det_spec(a.reverse_spec(), b) == -det_spec(a, b),
        det_spec(a, b.reverse_spec()) == -det_spec(a, b),
{
    let ra = a.reverse_spec();
    let rb = b.reverse_spec();
    assert((ra.end.x - ra.start.x) * (b.end.y - b.start.y) - (b.end.x - b.start.x) * (ra.end.y
        - ra.start.y) == -((a.end.x - a.start.x) * (b.end.y - b.start.y) - (b.end.x - b.start.x) * (
    a.end.y - a.start.y))) by (nonlinear_arith)
        requires
            ra.start == a.end,
            ra.end == a.start,
    ;
    assert((a.end.x - a.start.x) * (rb.end.y - rb.start.y) - (rb.end.x - rb.start.x) * (a.end.y
        - a.start.y) == -((a.end.x - a.start.x) * (b.end.y - b.start.y) - (b.end.x - b.start.x) * (
    a.end.y - a.start.y))) by (nonlinear_arith)
        requires
            rb.start == b.end,
            rb.end == b.start,
    ;
}

/// Two parallel supporting lines that do not coincide share no point: if
/// the second segment is non-degenerate and its start is off the first
/// segment's line, a point of the first line is never on the second.
proof fn lemma_parallel_lines_disjoint(l1: Line2D, l2: Line2D, p: RatPoint2d)
    requires
        p.wf(),
        det_spec(l1, l2) == 0,
        l2.start != l2.end,
        !on_line_spec(start_rp(l2), l1),
        on_line_spec(p, l1),
    ensures
        !on_line_spec(p, l2),
{
    if on_line_spec(p, l2) {
        let d = p.den as int;
        let dx1 = l1.end.x - l1.start.x;
        let dy1 = l1.end.y - l1.start.y;
        let dx2 = l2.end.x - l2.start.x;
        let dy2 = l2.end.y - l2.start.y;
        let aa = p.xn - l2.start.x * p.den;
        let bb = p.yn - l2.start.y * p.den;
        let ee = aa * dy1 - bb * dx1;
        assert(aa * dy2 - bb * dx2 == 0);
        assert(dx1 * dy2 - dx2 * dy1 == 0);
        assert(dx2 * ee == 0) by (nonlinear_arith)
            requires
                ee == aa * dy1 - bb * dx1,
                aa * dy2 - bb * dx2 == 0,
                dx1 * dy2 - dx2 * dy1 == 0,
        ;
        assert(dy2 * ee == 0) by (nonlinear_arith)
            requires
                ee == aa * dy1 - bb * dx1,
                aa * dy2 - bb * dx2 == 0,
                dx1 * dy2 - dx2 * dy1 == 0,
        ;
        assert(dx2 != 0 || dy2 != 0);
        assert(ee == 0) by (nonlinear_arith)
            requires
                dx2 * ee == 0,
                dy2 * ee == 0,
                dx2 != 0 || dy2 != 0,
        ;
        assert((p.xn - l1.start.x * p.den) * dy1 - (p.yn - l1.start.y * p.den) * dx1 == 0);
        let q1 = p.xn - l1.start.x * p.den;
        let q2 = p.yn - l1.start.y * p.den;
        let f = (l2.start.x - l1.start.x) * dy1 - (l2.start.y - l1.start.y) * dx1;
        assert(q1 - aa == (l2.start.x - l1.start.x) * d) by (nonlinear_arith)
            requires
                q1 == p.xn - l1.start.x * p.den,
                aa == p.xn - l2.start.x * p.den,
                d == p.den,
        ;
        assert(q2 - bb == (l2.start.y - l1.start.y) * d) by (nonlinear_arith)
            requires
                q2 == p.yn - l1.start.y * p.den,
                bb == p.yn - l2.start.y * p.den,
                d == p.den,
        ;
        let wx = l2.start.x - l1.start.x;
        let wy = l2.start.y - l1.start.y;
        assert((q1 - aa) * dy1 - (q2 - bb) * dx1 == (q1 * dy1 - q2 * dx1) - (aa * dy1 - bb * dx1))
            by (nonlinear_arith);
        assert((wx * d) * dy1 - (wy * d) * dx1 == d * (wx * dy1 - wy * dx1)) by (nonlinear_arith);
        crate::numerics::lemma_mul_congruence(q1 - aa, wx * d, dy1);
        crate::numerics::lemma_mul_congruence(q2 - bb, wy * d, dx1);
        crate::numerics::lemma_mul_congruence(f, wx * dy1 - wy * dx1, d);
        assert(d * f == 0);
        assert(f == 0) by (nonlinear_arith)
            requires
                d * f == 0,
                d > 0,
        ;
        let s2 = start_rp(l2);
        assert((s2.xn - l1.start.x * s2.den) * (l1.end.y - l1.start.y) - (s2.yn - l1.start.y
            * s2.den) * (l1.end.x - l1.start.x) == 0) by (nonlinear_arith)
            requires
                f == 0,
                f == (l2.start.x - l1.start.x) * dy1 - (l2.start.y - l1.start.y) * dx1,
                dx1 == l1.end.x - l1.start.x,
                dy1 == l1.end.y - l1.start.y,
                s2.xn == l2.start.x,
                s2.yn == l2.start.y,
                s2.den == 1,
        ;
        assert(on_line_spec(start_rp(l2), l1));
        assert(false);
    }
}

/// Parallel, non-intersecting segments meet nowhere: when every pair of
/// distinct input segments is parallel and keeps both endpoints of each
/// off the other's supporting line, no point lies on two of the supporting
/// lines at once, so the sweep's sound report set is empty.
pub proof fn lemma_parallel_inputs_no_meeting(lines: Seq<Line2D>, p: RatPoint2d)
    requires
        p.wf(),
        forall|a: int, b: int|
            0 <= a < lines.len() && 0 <= b < lines.len() && a != b ==> #[trigger] det_spec(
                lines[a],
                lines[b],
            ) == 0,
        forall|a: int| 0 <= a < lines.len() ==> (#[trigger] lines[a]).start != lines[a].end,
        forall|a: int, b: int|
            0 <= a < lines.len() && 0 <= b < lines.len() && a != b ==> !(#[trigger] on_line_spec(
                start_rp(lines[b]),
                lines[a],
            )) && !on_line_spec(end_rp(lines[b]), lines[a]),
    ensures
        !on_two_input_lines(lines, p),
{
    if on_two_input_lines(lines, p) {
        let (l1, l2) = choose|l1: Line2D, l2: Line2D| #[trigger] is_meet_pair(lines, p, l1, l2);
        let a = choose|a: int| 0 <= a < lines.len() && #[trigger] norm_spec(lines[a]) == l1;
        let b = choose|b: int| 0 <= b < lines.len() && #[trigger] norm_spec(lines[b]) == l2;
        assert(a != b);
        assert(det_spec(lines[a], lines[b]) == 0);
        assert(lines[a].start != lines[a].end);
        assert(lines[b].start != lines[b].end);
        assert(l2.start != l2.end);
        lemma_det_reverse(lines[a], lines[b]);
        if l2 == lines[b] {
            assert(start_rp(l2) == start_rp(lines[b]));
            assert(!on_line_spec(start_rp(lines[b]), lines[a]));
        } else {
            assert(l2 == lines[b].reverse_spec());
            assert(start_rp(l2) == end_rp(lines[b]));
            assert(!on_line_spec(start_rp(lines[b]), lines[a]));
            assert(!on_line_spec(end_rp(lines[b]), lines[a]));
        }
        assert(!on_line_spec(start_rp(l2), lines[a]));
        lemma_on_line_reverse(p, lines[a]);
        if l1 == lines[a] {
            assert(on_line_spec(p, lines[a]));
        } else {
            assert(l1 == lines[a].reverse_spec());
            assert(on_line_spec(p, lines[a]));
        }
        if l2 == lines[b] {
            assert(det_spec(lines[a], l2) == 0);
        } else {
            assert(det_spec(lines[a], l2) == -det_spec(lines[a], lines[b]));
            assert(det_spec(lines[a], l2) == 0);
        }
        lemma_parallel_lines_disjoint(lines[a], l2, p);
        assert(false);
    }
}

} // verus!
