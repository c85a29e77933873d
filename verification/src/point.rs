//! Screen coordinates and the bounded history of a gesture in progress.

use vstd::prelude::*;

verus! {

/// Number of points a history holds unless another capacity is asked for.
pub const DEFAULT_CAPACITY: usize = 1024;

/// An integer screen coordinate.
#[derive(Clone, Copy, Debug, PartialEq, Eq, Structural)]
pub struct Point {
    pub x: i32,
    pub y: i32,
}

impl Point {
    /// Moves the point to `(x, y)`.
    pub fn set(&mut self, x: i32, y: i32)
        ensures
            final(self).x == x,
            final(self).y == y,
    {
        self.x = x;
        self.y = y;
    }
}

/// What a history of capacity `cap` holding `s` holds after `p` is offered to it:
/// the point is appended while there is room and ignored otherwise.
pub open spec fn offered(s: Seq<Point>, cap: nat, p: Point) -> Seq<Point> {
    if s.len() < cap {
        s.push(p)
    } else {
        s
    }
}

/// What a history of capacity `cap` holding `s` holds after every point of `ps`
/// was offered to it, first to last.
pub open spec fn offered_all(s: Seq<Point>, cap: nat, ps: Seq<Point>) -> Seq<Point>
    decreases ps.len(),
{
    if ps.len() == 0 {
        s
    } else {
        offered(offered_all(s, cap, ps.drop_last()), cap, ps.last())
    }
}

/// The points of a gesture in the order they were recorded, at most
/// `capacity` of them. Once full, the history refuses further points; it never
/// overwrites or shifts what it already holds.
#[derive(Debug)]
pub struct PointHistory {
    points: Vec<Point>,
    capacity: usize,
}

impl View for PointHistory {
    type V = Seq<Point>;

    closed spec fn view(&self) -> Seq<Point> {
        self.points@
    }
}

impl PointHistory {
    #[verifier::type_invariant]
    spec fn within_capacity(&self) -> bool {
        self.points@.len() <= self.capacity
    }

    /// The largest number of points the history will hold.
    pub closed spec fn spec_capacity(&self) -> usize {
        self.capacity
    }

    /// An empty history of the default capacity.
    pub fn new() -> (h: Self)
        ensures
            h@ == Seq::<Point>::empty(),
            h.spec_capacity() == DEFAULT_CAPACITY,
    {
        PointHistory { points: Vec::new(), capacity: DEFAULT_CAPACITY }
    }

    /// An empty history that holds at most `capacity` points.
    pub fn with_capacity(capacity: usize) -> (h: Self)
        ensures
            h@ == Seq::<Point>::empty(),
            h.spec_capacity() == capacity,
    {
        PointHistory { points: Vec::new(), capacity }
    }

    /// The capacity the history was made with.
    #[verifier::when_used_as_spec(spec_capacity)]
    pub fn capacity(&self) -> (c: usize)
        ensures
            c == self.spec_capacity(),
            self@.len() <= c,
    {
        proof {
            use_type_invariant(self);
        }
        self.capacity
    }

    /// The number of points recorded, which never exceeds the capacity.
    pub fn len(&self) -> (n: usize)
        ensures
            n == self@.len(),
            n <= self.spec_capacity(),
    {
        proof {
            use_type_invariant(self);
        }
        self.points.len()
    }

    /// Whether no point is recorded.
    pub fn is_empty(&self) -> (b: bool)
        ensures
            b == (self@.len() == 0),
    {
        self.points.len() == 0
    }

    /// Whether the history has reached its capacity.
    pub fn is_full(&self) -> (b: bool)
        ensures
            b == (self@.len() == self.spec_capacity()),
            self@.len() <= self.spec_capacity(),
    {
        proof {
            use_type_invariant(self);
        }
        self.points.len() == self.capacity
    }

    /// The `i`-th recorded point.
    pub fn get(&self, i: usize) -> (p: Option<Point>)
        ensures
            p == (if i < self@.len() {
                Some(self@[i as int])
            } else {
                None
            }),
    {
        if i < self.points.len() {
            Some(self.points[i])
        } else {
            None
        }
    }

    /// Offers `p` to the history. While there is room the point is appended
    /// and `true` comes back; a full history is left as it is and `false`
    /// comes back.
    pub fn push(&mut self, p: Point) -> (stored: bool)
        ensures
            stored == (old(self)@.len() < old(self).spec_capacity()),
            final(self)@ == offered(old(self)@, old(self).spec_capacity() as nat, p),
            final(self).spec_capacity() == old(self).spec_capacity(),
            final(self)@.len() <= final(self).spec_capacity(),
    {
        proof {
            use_type_invariant(&*self);
        }
        if self.points.len() < self.capacity {
            let mut points: Vec<Point> = Vec::new();
            core::mem::swap(&mut self.points, &mut points);
            points.push(p);
            self.points = points;
            true
        } else {
            false
        }
    }

    /// Forgets every recorded point; the capacity stays.
    pub fn clear(&mut self)
        ensures
            final(self)@ == Seq::<Point>::empty(),
            final(self).spec_capacity() == old(self).spec_capacity(),
    {
        let mut points: Vec<Point> = Vec::new();
        core::mem::swap(&mut self.points, &mut points);
        points.clear();
        self.points = points;
    }

    /// The recorded points, first to last, without copying them.
    pub fn points(&self) -> (v: &Vec<Point>)
        ensures
            v@ == self@,
            v@.len() <= self.spec_capacity(),
    {
        proof {
            use_type_invariant(self);
        }
        &self.points
    }

    /// A copy of the recorded points, first to last.
    pub fn to_vec(&self) -> (v: Vec<Point>)
        ensures
            v@ == self@,
    {
        let mut v: Vec<Point> = Vec::new();
        let mut i: usize = 0;
        while i < self.points.len()
            invariant
                i <= self.points@.len(),
                v@ == self.points@.take(i as int),
            decreases self.points@.len() - i,
        {
            v.push(self.points[i]);
            i = i + 1;
            assert(self.points@.take(i as int) == self.points@.take(i - 1).push(
                self.points@[i - 1],
            ));
        }
        assert(self.points@.take(i as int) == self.points@);
        v
    }
}

impl Clone for PointHistory {
    /// A history with the same points and the same capacity.
    fn clone(&self) -> (h: Self)
        ensures
            h@ == self@,
            h.spec_capacity() == self.spec_capacity(),
    {
        proof {
            use_type_invariant(self);
        }
        PointHistory { points: self.to_vec(), capacity: self.capacity }
    }
}

/// Offering points to a history keeps it within its capacity, keeps what it
/// held, and stores exactly those offered points that still fit: the result is
/// the old content followed by the offered points, cut off at the capacity.
pub proof fn lemma_offered_all_is_prefix(s: Seq<Point>, cap: nat, ps: Seq<Point>)
    requires
        s.len() <= cap,
    ensures
        offered_all(s, cap, ps) == (s + ps).take(
            if s.len() + ps.len() <= cap {
                (s.len() + ps.len()) as int
            } else {
                cap as int
            },
        ),
        offered_all(s, cap, ps).len() <= cap,
        s.is_prefix_of(offered_all(s, cap, ps)),
    decreases ps.len(),
{
    if ps.len() == 0 {
        assert(s + ps == s);
        assert(s.take(s.len() as int) == s);
    } else {
        let init = ps.drop_last();
        lemma_offered_all_is_prefix(s, cap, init);
        let before = offered_all(s, cap, init);
        assert(s + ps == (s + init).push(ps.last()));
        if s.len() + ps.len() <= cap {
            assert((s + init).take((s.len() + init.len()) as int) == s + init);
            assert((s + ps).take((s.len() + ps.len()) as int) == s + ps);
        } else {
            assert(before.len() == cap);
            assert((s + ps).take(cap as int) == (s + init).take(cap as int));
        }
    }
}

/// The stored form of a trace: its coordinates in one list, `x` before `y`,
/// point after point.
pub open spec fn flattened(points: Seq<Point>) -> Seq<i32> {
    Seq::new(
        2 * points.len(),
        |i: int|
            if i % 2 == 0 {
                points[i / 2].x
            } else {
                points[i / 2].y
            },
    )
}

/// The trace that a list of coordinates stores: each pair of neighbours, the
/// first at an even place, is a point.
pub open spec fn paired(coords: Seq<i32>) -> Seq<Point> {
    Seq::new(coords.len() / 2, |i: int| Point { x: coords[2 * i], y: coords[2 * i + 1] })
}

/// Whether a list of coordinates stores a trace that a history of the
/// default capacity can hold: it pairs up, into no more points than that.
pub open spec fn is_stored_trace(coords: Seq<i32>) -> bool {
    coords.len() % 2 == 0 && coords.len() / 2 <= DEFAULT_CAPACITY
}

impl PointHistory {
    /// Reads a trace from its stored form. A list of odd length, or of more
    /// points than the default capacity, stores no trace.
    pub fn from_flat(coords: &Vec<i32>) -> (history: Option<PointHistory>)
        ensures
            match history {
                Some(h) => is_stored_trace(coords@) && h@ == paired(coords@) && h.spec_capacity()
                    == DEFAULT_CAPACITY,
                None => !is_stored_trace(coords@),
            },
    {
        let n: usize = coords.len();
        if n % 2 != 0 || n / 2 > DEFAULT_CAPACITY {
            return None;
        }
        let mut points: Vec<Point> = Vec::new();
        let mut i: usize = 0;
        while i < n / 2
            invariant
                n == coords@.len(),
                n % 2 == 0,
                i <= n / 2,
                points@ == paired(coords@).take(i as int),
            decreases n / 2 - i,
        {
            points.push(Point { x: coords[2 * i], y: coords[2 * i + 1] });
            i = i + 1;
            assert(paired(coords@).take(i as int) == paired(coords@).take(i - 1).push(
                paired(coords@)[i - 1],
            ));
        }
        assert(paired(coords@).take(i as int) == paired(coords@));
        Some(PointHistory { points, capacity: DEFAULT_CAPACITY })
    }

    /// Writes the trace in its stored form.
    pub fn to_flat(&self) -> (coords: Vec<i32>)
        ensures
            coords@ == flattened(self@),
    {
        let mut coords: Vec<i32> = Vec::new();
        let mut i: usize = 0;
        while i < self.points.len()
            invariant
                i <= self.points@.len(),
                coords@.len() == 2 * i,
                forall|k: int| 0 <= k < 2 * i ==> coords@[k] == flattened(self.points@)[k],
            decreases self.points@.len() - i,
        {
            let p = self.points[i];
            coords.push(p.x);
            coords.push(p.y);
            i = i + 1;
        }
        assert(coords@ =~= flattened(self@));
        coords
    }
}

/// Storing a trace and reading it back gives the trace; reading a list that
/// pairs up and storing the result gives the list.
pub proof fn lemma_stored_form_round_trip(points: Seq<Point>, coords: Seq<i32>)
    ensures
        paired(flattened(points)) == points,
        flattened(points).len() == 2 * points.len(),
        coords.len() % 2 == 0 ==> flattened(paired(coords)) == coords,
{
    let back = paired(flattened(points));
    assert(back.len() == points.len());
    assert forall|i: int| 0 <= i < points.len() implies back[i] == points[i] by {
        assert(flattened(points)[2 * i] == points[(2 * i) / 2].x);
        assert(flattened(points)[2 * i + 1] == points[(2 * i + 1) / 2].y);
    }
    assert(back =~= points);
    if coords.len() % 2 == 0 {
        let again = flattened(paired(coords));
        assert(again.len() == coords.len());
        assert forall|k: int| 0 <= k < coords.len() implies again[k] == coords[k] by {
            if k % 2 == 0 {
                assert(2 * (k / 2) == k);
            } else {
                assert(2 * (k / 2) + 1 == k);
            }
        }
        assert(again =~= coords);
    }
}

} // verus!
