//! Geometry of a gesture trace: its angle signature and its normal form.

use crate::point::{Point, PointHistory};
use vstd::prelude::*;

verus! {

/// The direction from one point of a trace to the next, held exactly as the
/// displacement that subtends the angle: its measure is the angle of the
/// vector `(dx, dy)` against the x axis.
#[derive(Clone, Copy, Debug, PartialEq, Eq, Structural)]
pub struct Angle {
    pub dx: i64,
    pub dy: i64,
}

/// The direction from `from` to `to`.
pub open spec fn angle_between(from: Point, to: Point) -> Angle {
    Angle { dx: (to.x - from.x) as i64, dy: (to.y - from.y) as i64 }
}

/// The angle signature of a trace: one direction per pair of consecutive
/// points, in the order of the trace.
pub open spec fn angles(points: Seq<Point>) -> Seq<Angle> {
    Seq::new(
        if points.len() > 0 {
            (points.len() - 1) as nat
        } else {
            0
        },
        |i: int| angle_between(points[i], points[i + 1]),
    )
}

/// Computes the angle signature of a trace. A trace of fewer than two points
/// has the empty signature.
pub fn points_to_angles(points: &PointHistory) -> (signature: Vec<Angle>)
    ensures
        signature@ == angles(points@),
        signature@.len() == (if points@.len() > 0 {
            points@.len() - 1
        } else {
            0
        }),
{
    let trace = points.points();
    let mut signature: Vec<Angle> = Vec::new();
    let mut i: usize = 1;
    while i < trace.len()
        invariant
            1 <= i,
            trace@.len() > 0 ==> i <= trace@.len(),
            signature@.len() == (if trace@.len() > 0 {
                i - 1
            } else {
                0
            }),
            forall|k: int|
                0 <= k < signature@.len() ==> signature@[k] == angle_between(
                    trace@[k],
                    trace@[k + 1],
                ),
        decreases trace@.len() - i,
    {
        let from = trace[i - 1];
        let to = trace[i];
        signature.push(Angle { dx: to.x as i64 - from.x as i64, dy: to.y as i64 - from.y as i64 });
        i = i + 1;
    }
    assert(signature@ =~= angles(points@));
    signature
}

/// The x coordinates of a trace.
pub open spec fn xs(points: Seq<Point>) -> Seq<int> {
    Seq::new(points.len(), |i: int| points[i].x as int)
}

/// The y coordinates of a trace.
pub open spec fn ys(points: Seq<Point>) -> Seq<int> {
    Seq::new(points.len(), |i: int| points[i].y as int)
}

/// The least of `v`, for a `v` that is not empty.
pub open spec fn least(v: Seq<int>) -> int
    decreases v.len(),
{
    if v.len() <= 1 {
        v[0]
    } else if v.last() < least(v.drop_last()) {
        v.last()
    } else {
        least(v.drop_last())
    }
}

/// The greatest of `v`, for a `v` that is not empty.
pub open spec fn greatest(v: Seq<int>) -> int
    decreases v.len(),
{
    if v.len() <= 1 {
        v[0]
    } else if v.last() > greatest(v.drop_last()) {
        v.last()
    } else {
        greatest(v.drop_last())
    }
}

/// The sum of `v`.
pub open spec fn total(v: Seq<int>) -> int
    decreases v.len(),
{
    if v.len() == 0 {
        0
    } else {
        total(v.drop_last()) + v.last()
    }
}

/// The quotient of `a` by a positive `b`, rounded towards zero.
pub open spec fn trunc_div(a: int, b: int) -> int {
    if a >= 0 {
        a / b
    } else {
        -((-a) / b)
    }
}

/// The mean of `v`, rounded towards zero.
pub open spec fn mean(v: Seq<int>) -> int {
    trunc_div(total(v), v.len() as int)
}

/// The extent of `v`: the distance from its least to its greatest.
pub open spec fn span(v: Seq<int>) -> int {
    greatest(v) - least(v)
}

/// Where the normal form puts its origin on the axis with coordinates `v`:
/// at the mean when centering on the average, at the least otherwise.
pub open spec fn origin(v: Seq<int>, use_avg: bool) -> int {
    if use_avg {
        mean(v)
    } else {
        least(v)
    }
}

/// A coordinate `c` in the normal form of an axis with the given origin and
/// span: the offset from the origin, stretched so that the span becomes 100.
pub open spec fn scaled(c: int, origin: int, span: int) -> int {
    trunc_div(100 * (c - origin), span)
}

/// Whether a trace has a normal form: it has points and its bounding box has
/// positive width and positive height.
pub open spec fn classifiable(points: Seq<Point>) -> bool {
    points.len() > 0 && span(xs(points)) > 0 && span(ys(points)) > 0
}

/// The normal form of a trace: each axis moved to the origin and stretched on
/// its own so that the bounding box spans 100; empty for a trace that has no
/// normal form.
pub open spec fn normalized(points: Seq<Point>, use_avg: bool) -> Seq<Point> {
    if classifiable(points) {
        Seq::new(
            points.len(),
            |i: int|
                Point {
                    x: scaled(
                        points[i].x as int,
                        origin(xs(points), use_avg),
                        span(xs(points)),
                    ) as i32,
                    y: scaled(
                        points[i].y as int,
                        origin(ys(points), use_avg),
                        span(ys(points)),
                    ) as i32,
                },
        )
    } else {
        Seq::empty()
    }
}

/// The coordinates of a trace along one axis.
spec fn axis(points: Seq<Point>, vertical: bool) -> Seq<int> {
    if vertical {
        ys(points)
    } else {
        xs(points)
    }
}

/// What a trace measures along one axis.
struct Extent {
    lo: i32,
    hi: i32,
    sum: i128,
}

fn coordinate(p: Point, vertical: bool) -> (c: i32)
    ensures
        c == (if vertical {
            p.y
        } else {
            p.x
        }),
{
    if vertical {
        p.y
    } else {
        p.x
    }
}

/// Measures a trace along one axis: its least and greatest coordinate and
/// the sum of its coordinates.
fn measure(trace: &Vec<Point>, vertical: bool) -> (e: Extent)
    requires
        trace@.len() > 0,
    ensures
        e.lo == least(axis(trace@, vertical)),
        e.hi == greatest(axis(trace@, vertical)),
        e.sum == total(axis(trace@, vertical)),
{
    let ghost v = axis(trace@, vertical);
    let first: i32 = coordinate(trace[0], vertical);
    let mut e = Extent { lo: first, hi: first, sum: first as i128 };
    let mut i: usize = 1;
    proof {
        assert(v.take(1).drop_last() == Seq::<int>::empty());
        assert(total(v.take(1).drop_last()) == 0);
    }
    while i < trace.len()
        invariant
            1 <= i <= trace@.len(),
            v == axis(trace@, vertical),
            v.len() == trace@.len(),
            e.lo == least(v.take(i as int)),
            e.hi == greatest(v.take(i as int)),
            e.sum == total(v.take(i as int)),
            -(i * 0x8000_0000) <= e.sum <= i * 0x8000_0000,
        decreases trace@.len() - i,
    {
        let c: i32 = coordinate(trace[i], vertical);
        proof {
            assert(v.take(i + 1).drop_last() == v.take(i as int));
            assert(v.take(i + 1).last() == c);
        }
        if c < e.lo {
            e.lo = c;
        }
        if c > e.hi {
            e.hi = c;
        }
        e.sum = e.sum + c as i128;
        i = i + 1;
    }
    proof {
        assert(v.take(i as int) == v);
    }
    e
}

/// The quotient of `a` by a positive `b`, rounded towards zero.
fn div_towards_zero(a: i128, b: i128) -> (q: i128)
    requires
        b > 0,
        a > i128::MIN,
    ensures
        q == trunc_div(a as int, b as int),
{
    if a >= 0 {
        a / b
    } else {
        let q: i128 = (-a) / b;
        assert(0 <= q <= -a) by (nonlinear_arith)
            requires
                q == (-a as int) / (b as int),
                -a >= 0,
                b > 0,
        ;
        -q
    }
}

/// Rescales a trace so that its shape can be compared whatever its place and
/// size: each axis is moved to its origin (the least coordinate, or the mean
/// when `use_avg` is set) and stretched on its own so that the bounding box
/// spans 100. A trace without points, or whose bounding box has no width or
/// no height, cannot be classified and yields the empty trace.
pub fn normalize_points(input_points: &PointHistory, use_avg: bool) -> (out: PointHistory)
    ensures
        out@ == normalized(input_points@, use_avg),
        out.spec_capacity() == input_points.spec_capacity(),
{
    let trace = input_points.points();
    let mut out = PointHistory::with_capacity(input_points.capacity());
    let n: usize = trace.len();
    if n == 0 {
        return out;
    }
    let ex = measure(trace, false);
    let ey = measure(trace, true);
    let width: i64 = ex.hi as i64 - ex.lo as i64;
    let height: i64 = ey.hi as i64 - ey.lo as i64;
    if !(width > 0 && height > 0) {
        return out;
    }
    proof {
        lemma_mean_bounds(xs(trace@));
        lemma_mean_bounds(ys(trace@));
        lemma_total_bounds(xs(trace@));
        lemma_total_bounds(ys(trace@));
        lemma_least_greatest(xs(trace@));
        lemma_least_greatest(ys(trace@));
        assert(n * (-0x8000_0000) <= n * least(xs(trace@))) by (nonlinear_arith)
            requires
                n >= 0,
                -0x8000_0000 <= least(xs(trace@)),
        ;
        assert(n * greatest(xs(trace@)) <= n * 0x8000_0000) by (nonlinear_arith)
            requires
                n >= 0,
                greatest(xs(trace@)) <= 0x8000_0000,
        ;
        assert(n * (-0x8000_0000) <= n * least(ys(trace@))) by (nonlinear_arith)
            requires
                n >= 0,
                -0x8000_0000 <= least(ys(trace@)),
        ;
        assert(n * greatest(ys(trace@)) <= n * 0x8000_0000) by (nonlinear_arith)
            requires
                n >= 0,
                greatest(ys(trace@)) <= 0x8000_0000,
        ;
    }
    let origin_x: i64 = if use_avg {
        div_towards_zero(ex.sum, n as i128) as i64
    } else {
        ex.lo as i64
    };
    let origin_y: i64 = if use_avg {
        div_towards_zero(ey.sum, n as i128) as i64
    } else {
        ey.lo as i64
    };
    let mut i: usize = 0;
    while i < n
        invariant
            i <= n,
            n == trace@.len(),
            trace@ == input_points@,
            n <= out.spec_capacity(),
            out.spec_capacity() == input_points.spec_capacity(),
            classifiable(trace@),
            width == span(xs(trace@)),
            height == span(ys(trace@)),
            origin_x == origin(xs(trace@), use_avg),
            origin_y == origin(ys(trace@), use_avg),
            least(xs(trace@)) <= origin_x <= greatest(xs(trace@)),
            least(ys(trace@)) <= origin_y <= greatest(ys(trace@)),
            forall|k: int|
                0 <= k < trace@.len() ==> least(xs(trace@)) <= #[trigger] xs(trace@)[k]
                    <= greatest(xs(trace@)),
            forall|k: int|
                0 <= k < trace@.len() ==> least(ys(trace@)) <= #[trigger] ys(trace@)[k]
                    <= greatest(ys(trace@)),
            out@ == normalized(trace@, use_avg).take(i as int),
        decreases n - i,
    {
        let p = trace[i];
        proof {
            assert(xs(trace@)[i as int] == p.x);
            assert(ys(trace@)[i as int] == p.y);
            lemma_scaled_range(p.x as int, origin_x as int, width as int);
            lemma_scaled_range(p.y as int, origin_y as int, height as int);
        }
        let x: i128 = div_towards_zero(100 * (p.x as i128 - origin_x as i128), width as i128);
        let y: i128 = div_towards_zero(100 * (p.y as i128 - origin_y as i128), height as i128);
        out.push(Point { x: x as i32, y: y as i32 });
        i = i + 1;
        proof {
            let whole = normalized(trace@, use_avg);
            assert(whole.take(i as int) == whole.take(i - 1).push(whole[i - 1]));
        }
    }
    proof {
        let whole = normalized(trace@, use_avg);
        assert(whole.take(n as int) == whole);
    }
    out
}

/// The least of a sequence is one of its items and no item is below it; the
/// greatest is one of its items and no item is above it.
pub proof fn lemma_least_greatest(v: Seq<int>)
    requires
        v.len() > 0,
    ensures
        v.contains(least(v)),
        v.contains(greatest(v)),
        forall|i: int| 0 <= i < v.len() ==> least(v) <= #[trigger] v[i] <= greatest(v),
    decreases v.len(),
{
    if v.len() == 1 {
        assert(v[0] == least(v));
        assert(v[0] == greatest(v));
    } else {
        let init = v.drop_last();
        lemma_least_greatest(init);
        let lo = choose|i: int| 0 <= i < init.len() && init[i] == least(init);
        let hi = choose|i: int| 0 <= i < init.len() && init[i] == greatest(init);
        assert(v[lo] == least(init));
        assert(v[hi] == greatest(init));
        assert(v[v.len() - 1] == v.last());
        assert forall|i: int| 0 <= i < v.len() implies least(v) <= #[trigger] v[i] <= greatest(
            v,
        ) by {
            if i < init.len() {
                assert(init[i] == v[i]);
            }
        }
    }
}

/// The sum of a sequence lies between its length times its least and its
/// length times its greatest.
pub proof fn lemma_total_bounds(v: Seq<int>)
    requires
        v.len() > 0,
    ensures
        v.len() * least(v) <= total(v) <= v.len() * greatest(v),
    decreases v.len(),
{
    if v.len() == 1 {
        assert(total(v.drop_last()) == 0);
    } else {
        let init = v.drop_last();
        lemma_total_bounds(init);
        lemma_least_greatest(init);
        let n = init.len() as int;
        assert(least(v) <= least(init));
        assert(greatest(init) <= greatest(v));
        assert(n * least(v) <= n * least(init)) by (nonlinear_arith)
            requires
                n >= 0,
                least(v) <= least(init),
        ;
        assert(n * greatest(init) <= n * greatest(v)) by (nonlinear_arith)
            requires
                n >= 0,
                greatest(init) <= greatest(v),
        ;
        assert((n + 1) * least(v) == n * least(v) + least(v)) by (nonlinear_arith);
        assert((n + 1) * greatest(v) == n * greatest(v) + greatest(v)) by (nonlinear_arith);
        lemma_least_greatest(v);
        assert(least(v) <= v[v.len() - 1] <= greatest(v));
    }
}

/// The mean of a sequence lies between its least and its greatest.
pub proof fn lemma_mean_bounds(v: Seq<int>)
    requires
        v.len() > 0,
    ensures
        least(v) <= mean(v) <= greatest(v),
{
    lemma_total_bounds(v);
    let n = v.len() as int;
    let t = total(v);
    let lo = least(v);
    let hi = greatest(v);
    lemma_trunc_div_between(t, n, lo, hi);
}

/// A quotient rounded towards zero stays between two integers whenever the
/// dividend lies between their multiples of the divisor.
pub proof fn lemma_trunc_div_between(t: int, n: int, lo: int, hi: int)
    requires
        n > 0,
        n * lo <= t <= n * hi,
    ensures
        lo <= trunc_div(t, n) <= hi,
{
    if t >= 0 {
        let q = t / n;
        assert(q * n <= t < (q + 1) * n) by (nonlinear_arith)
            requires
                q == t / n,
                n > 0,
                t >= 0,
        ;
        assert(q <= hi) by (nonlinear_arith)
            requires
                q * n <= t,
                t <= n * hi,
                n > 0,
        ;
        assert(lo <= q) by (nonlinear_arith)
            requires
                t < (q + 1) * n,
                n * lo <= t,
                n > 0,
        ;
    } else {
        let m = -t;
        let q = m / n;
        assert(q * n <= m < (q + 1) * n) by (nonlinear_arith)
            requires
                q == m / n,
                n > 0,
                m >= 0,
        ;
        assert(-q <= hi) by (nonlinear_arith)
            requires
                m < (q + 1) * n,
                -m <= n * hi,
                n > 0,
        ;
        assert(lo <= -q) by (nonlinear_arith)
            requires
                q * n <= m,
                n * lo <= -m,
                n > 0,
        ;
    }
}

/// A coordinate whose offset from the origin is at most the span, either way,
/// lands between -100 and 100; one at the origin lands on 0, one a whole span
/// above it on 100, and none that is at or above the origin lands below 0.
pub proof fn lemma_scaled_range(c: int, origin: int, span: int)
    requires
        span > 0,
        -span <= c - origin <= span,
    ensures
        -100 <= scaled(c, origin, span) <= 100,
        c == origin ==> scaled(c, origin, span) == 0,
        c == origin + span ==> scaled(c, origin, span) == 100,
        c >= origin ==> scaled(c, origin, span) >= 0,
{
    let d = c - origin;
    assert(span * (-100) <= 100 * d <= span * 100) by (nonlinear_arith)
        requires
            -span <= d <= span,
    ;
    lemma_trunc_div_between(100 * d, span, -100, 100);
    if d == 0 {
        assert(0int / span == 0) by (nonlinear_arith)
            requires
                span > 0,
        ;
    }
    if d == span {
        assert((100 * span) / span == 100) by (nonlinear_arith)
            requires
                span > 0,
        ;
    }
    if d >= 0 {
        assert((100 * d) / span >= 0) by (nonlinear_arith)
            requires
                d >= 0,
                span > 0,
        ;
    }
}

/// A trace whose bounding box has no width or no height has the empty normal
/// form, under either centering; so has the empty trace.
pub proof fn lemma_degenerate_trace_is_not_normalized(points: Seq<Point>, use_avg: bool)
    requires
        points.len() == 0 || span(xs(points)) == 0 || span(ys(points)) == 0,
    ensures
        normalized(points, use_avg) == Seq::<Point>::empty(),
{
}

/// The angle signature of a trace has one item less than the trace, and none
/// for the empty trace; its `i`-th item is the direction from the `i`-th point
/// to the next.
pub proof fn lemma_angles_length(points: Seq<Point>)
    ensures
        angles(points).len() == (if points.len() > 0 {
            points.len() - 1
        } else {
            0
        }),
        forall|i: int|
            0 <= i < angles(points).len() ==> #[trigger] angles(points)[i] == angle_between(
                points[i],
                points[i + 1],
            ),
{
}

/// Centering on the minimum: the normal form keeps every point, in order,
/// inside the square from (0, 0) to (100, 100); a point with the least x of
/// the trace lands on x = 0 and one with the greatest x on x = 100, and
/// likewise for y. Such points exist on each axis.
pub proof fn lemma_min_based_normal_form(points: Seq<Point>, i: int)
    requires
        classifiable(points),
        0 <= i < points.len(),
    ensures
        normalized(points, false).len() == points.len(),
        0 <= normalized(points, false)[i].x <= 100,
        0 <= normalized(points, false)[i].y <= 100,
        points[i].x == least(xs(points)) ==> normalized(points, false)[i].x == 0,
        points[i].x == greatest(xs(points)) ==> normalized(points, false)[i].x == 100,
        points[i].y == least(ys(points)) ==> normalized(points, false)[i].y == 0,
        points[i].y == greatest(ys(points)) ==> normalized(points, false)[i].y == 100,
        exists|k: int| 0 <= k < points.len() && points[k].x == least(xs(points)),
        exists|k: int| 0 <= k < points.len() && points[k].x == greatest(xs(points)),
        exists|k: int| 0 <= k < points.len() && points[k].y == least(ys(points)),
        exists|k: int| 0 <= k < points.len() && points[k].y == greatest(ys(points)),
{
    lemma_least_greatest(xs(points));
    lemma_least_greatest(ys(points));
    assert(xs(points)[i] == points[i].x);
    assert(ys(points)[i] == points[i].y);
    lemma_scaled_range(points[i].x as int, least(xs(points)), span(xs(points)));
    lemma_scaled_range(points[i].y as int, least(ys(points)), span(ys(points)));
    let a = choose|k: int| 0 <= k < xs(points).len() && xs(points)[k] == least(xs(points));
    let b = choose|k: int| 0 <= k < xs(points).len() && xs(points)[k] == greatest(xs(points));
    let c = choose|k: int| 0 <= k < ys(points).len() && ys(points)[k] == least(ys(points));
    let d = choose|k: int| 0 <= k < ys(points).len() && ys(points)[k] == greatest(ys(points));
    assert(points[a].x == least(xs(points)));
    assert(points[b].x == greatest(xs(points)));
    assert(points[c].y == least(ys(points)));
    assert(points[d].y == greatest(ys(points)));
}

/// Centering on the average: the normal form keeps every point, in order,
/// inside the square from (-100, -100) to (100, 100), with the same spans as
/// centering on the minimum; the centroid, which lies within the bounding
/// box, is the origin: a point at the mean x lands on x = 0, one at the mean
/// y on y = 0.
pub proof fn lemma_avg_based_normal_form(points: Seq<Point>, i: int)
    requires
        classifiable(points),
        0 <= i < points.len(),
    ensures
        normalized(points, true).len() == points.len(),
        -100 <= normalized(points, true)[i].x <= 100,
        -100 <= normalized(points, true)[i].y <= 100,
        least(xs(points)) <= mean(xs(points)) <= greatest(xs(points)),
        least(ys(points)) <= mean(ys(points)) <= greatest(ys(points)),
        points[i].x == mean(xs(points)) ==> normalized(points, true)[i].x == 0,
        points[i].y == mean(ys(points)) ==> normalized(points, true)[i].y == 0,
{
    lemma_least_greatest(xs(points));
    lemma_least_greatest(ys(points));
    lemma_mean_bounds(xs(points));
    lemma_mean_bounds(ys(points));
    assert(xs(points)[i] == points[i].x);
    assert(ys(points)[i] == points[i].y);
    lemma_scaled_range(points[i].x as int, mean(xs(points)), span(xs(points)));
    lemma_scaled_range(points[i].y as int, mean(ys(points)), span(ys(points)));
}

} // verus!
