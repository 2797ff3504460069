use vstd::prelude::*;

verus! {

/// Fixed-point steps in one drawing unit.
pub const UNIT: i64 = 1000;

/// Largest magnitude of a coordinate that the transforms accept.
pub const COORD_LIMIT: i64 = 1_000_000_000_000;

/// Largest magnitude of either part of a `Ratio`.
pub const RATIO_LIMIT: i64 = 1_000_000;

/// A point of the plane, in fixed-point coordinates.
#[derive(Clone, Copy, Debug, PartialEq, Eq, Structural)]
pub struct Point {
    pub x: i64,
    pub y: i64,
}

/// An exact fraction `num / den`.
#[derive(Clone, Copy, Debug, PartialEq, Eq, Structural)]
pub struct Ratio {
    pub num: i64,
    pub den: i64,
}

impl Point {
    pub fn new(x: i64, y: i64) -> (r: Point)
        ensures
            r.x == x,
            r.y == y,
    {
        Point { x, y }
    }

    /// Componentwise sum.
    pub fn plus(self, o: Point) -> (r: Point)
        requires
            i64::MIN <= self.x + o.x <= i64::MAX,
            i64::MIN <= self.y + o.y <= i64::MAX,
        ensures
            r.x == self.x + o.x,
            r.y == self.y + o.y,
    {
        Point { x: self.x + o.x, y: self.y + o.y }
    }

    /// Componentwise difference.
    pub fn minus(self, o: Point) -> (r: Point)
        requires
            i64::MIN <= self.x - o.x <= i64::MAX,
            i64::MIN <= self.y - o.y <= i64::MAX,
        ensures
            r.x == self.x - o.x,
            r.y == self.y - o.y,
    {
        Point { x: self.x - o.x, y: self.y - o.y }
    }

    /// Both coordinates multiplied by `s`, each rounded down to a fixed-point step.
    pub fn scaled(self, s: Ratio) -> (r: Point)
        requires
            s.wf(),
            -2 * COORD_LIMIT <= self.x <= 2 * COORD_LIMIT,
            -2 * COORD_LIMIT <= self.y <= 2 * COORD_LIMIT,
        ensures
            r.x == self.x * s.num / s.den as int,
            r.y == self.y * s.num / s.den as int,
    {
        proof {
            lemma_scaled_bound(self.x as int, s);
            lemma_scaled_bound(self.y as int, s);
        }
        let qx = floor_div(self.x as i128 * s.num as i128, s.den as i128);
        let qy = floor_div(self.y as i128 * s.num as i128, s.den as i128);
        Point { x: qx as i64, y: qy as i64 }
    }

    pub open spec fn in_bounds(self) -> bool {
        -COORD_LIMIT <= self.x <= COORD_LIMIT && -COORD_LIMIT <= self.y <= COORD_LIMIT
    }
}

impl Ratio {
    pub fn new(num: i64, den: i64) -> (r: Ratio)
        ensures
            r.num == num,
            r.den == den,
    {
        Ratio { num, den }
    }

    pub open spec fn wf(self) -> bool {
        -RATIO_LIMIT <= self.num <= RATIO_LIMIT && 0 < self.den <= RATIO_LIMIT
    }
}

/// Every vertex of the polygon lies within the coordinate limits.
pub open spec fn all_in_bounds(s: Seq<Point>) -> bool {
    forall|i: int| 0 <= i < s.len() ==> (#[trigger] s[i]).in_bounds()
}

/// The x coordinate when `horizontal`, else the y coordinate.
pub open spec fn coord(p: Point, horizontal: bool) -> int {
    if horizontal {
        p.x as int
    } else {
        p.y as int
    }
}

/// Sum of one coordinate over all vertices.
pub open spec fn coord_sum(s: Seq<Point>, horizontal: bool) -> int
    decreases s.len(),
{
    if s.len() == 0 {
        0
    } else {
        coord_sum(s.drop_last(), horizontal) + coord(s.last(), horizontal)
    }
}

/// Arithmetic mean of one coordinate, rounded down to a fixed-point step.
pub open spec fn mean(s: Seq<Point>, horizontal: bool) -> int {
    coord_sum(s, horizontal) / (s.len() as int)
}

/// One coordinate moved from `v` toward `c` by the fraction `s`, rounded down.
pub open spec fn shrink_coord(v: int, c: int, s: Ratio) -> int {
    v + (c - v) * s.num / s.den as int
}

proof fn lemma_coord_sum_bound(s: Seq<Point>, horizontal: bool)
    requires
        all_in_bounds(s),
    ensures
        -COORD_LIMIT * s.len() <= coord_sum(s, horizontal) <= COORD_LIMIT * s.len(),
    decreases s.len(),
{
    if s.len() > 0 {
        lemma_coord_sum_bound(s.drop_last(), horizontal);
        assert(s.last().in_bounds());
    }
}

proof fn lemma_mean_bound(s: Seq<Point>, horizontal: bool)
    requires
        all_in_bounds(s),
        s.len() > 0,
    ensures
        -COORD_LIMIT <= mean(s, horizontal) <= COORD_LIMIT,
{
    lemma_coord_sum_bound(s, horizontal);
    let n = s.len() as int;
    let t = coord_sum(s, horizontal);
    assert(-COORD_LIMIT * n <= t <= COORD_LIMIT * n);
    assert(-COORD_LIMIT <= t / n <= COORD_LIMIT) by (nonlinear_arith)
        requires
            -COORD_LIMIT * n <= t <= COORD_LIMIT * n,
            n > 0,
    {
        vstd::arithmetic::div_mod::lemma_div_is_ordered(-COORD_LIMIT * n, t, n);
        vstd::arithmetic::div_mod::lemma_div_is_ordered(t, COORD_LIMIT * n, n);
        vstd::arithmetic::div_mod::lemma_div_multiples_vanish(-COORD_LIMIT as int, n);
        vstd::arithmetic::div_mod::lemma_div_multiples_vanish(COORD_LIMIT as int, n);
    }
}

/// `a / d` rounded toward negative infinity, for a positive `d`.
fn floor_div(a: i128, d: i128) -> (r: i128)
    requires
        d > 0,
        a > i128::MIN,
    ensures
        r == a / d,
{
    if a >= 0 {
        a / d
    } else {
        let q = (-a - 1) / d;
        proof {
            let m = (-a - 1) as int;
            vstd::arithmetic::div_mod::lemma_fundamental_div_mod(m, d as int);
            vstd::arithmetic::div_mod::lemma_mod_bound(m, d as int);
            let qq = q as int;
            let dd = d as int;
            assert(qq == m / dd);
            assert(m == dd * qq + m % dd);
            assert((-qq - 1) * dd == -(dd * qq) - dd) by (nonlinear_arith);
            assert(a == (-qq - 1) * dd + (dd - 1 - m % dd));
            vstd::arithmetic::div_mod::lemma_fundamental_div_mod_converse(
                a as int,
                d as int,
                -q - 1,
                d - 1 - m % (d as int),
            );
        }
        -q - 1
    }
}

/// The centroid of a polygon: the mean of its vertices, coordinate by
/// coordinate, rounded down to a fixed-point step.
pub fn get_centroid(polygon: &Vec<Point>) -> (r: Point)
    requires
        polygon.len() > 0,
        all_in_bounds(polygon@),
    ensures
        r.x == mean(polygon@, true),
        r.y == mean(polygon@, false),
        r.in_bounds(),
{
    let mut sx: i128 = 0;
    let mut sy: i128 = 0;
    let mut i: usize = 0;
    while i < polygon.len()
        invariant
            i <= polygon.len(),
            all_in_bounds(polygon@),
            sx == coord_sum(polygon@.subrange(0, i as int), true),
            sy == coord_sum(polygon@.subrange(0, i as int), false),
        decreases polygon.len() - i,
    {
        proof {
            let pre = polygon@.subrange(0, i as int);
            assert(all_in_bounds(pre));
            lemma_coord_sum_bound(pre, true);
            lemma_coord_sum_bound(pre, false);
            assert(polygon@.subrange(0, i + 1).drop_last() =~= pre);
            assert(polygon[i as int].in_bounds());
        }
        sx = sx + polygon[i].x as i128;
        sy = sy + polygon[i].y as i128;
        i = i + 1;
    }
    assert(polygon@.subrange(0, polygon.len() as int) =~= polygon@);
    let n = polygon.len() as i128;
    proof {
        lemma_coord_sum_bound(polygon@, true);
        lemma_coord_sum_bound(polygon@, false);
        lemma_mean_bound(polygon@, true);
        lemma_mean_bound(polygon@, false);
    }
    let mx = floor_div(sx, n);
    let my = floor_div(sy, n);
    Point { x: mx as i64, y: my as i64 }
}

/// The point `shrink_coord` gives on both coordinates.
pub open spec fn shrink(v: Point, c: Point, s: Ratio) -> (int, int) {
    (shrink_coord(v.x as int, c.x as int, s), shrink_coord(v.y as int, c.y as int, s))
}

proof fn lemma_scaled_bound(d: int, s: Ratio)
    requires
        -2 * COORD_LIMIT <= d <= 2 * COORD_LIMIT,
        s.wf(),
    ensures
        -2 * COORD_LIMIT * RATIO_LIMIT <= d * s.num <= 2 * COORD_LIMIT * RATIO_LIMIT,
        -2 * COORD_LIMIT * RATIO_LIMIT <= d * s.num / s.den as int <= 2 * COORD_LIMIT
            * RATIO_LIMIT,
{
    let t = d * s.num;
    let k = s.den as int;
    assert(-2 * COORD_LIMIT * RATIO_LIMIT <= t <= 2 * COORD_LIMIT * RATIO_LIMIT) by (nonlinear_arith)
        requires
            -2 * COORD_LIMIT <= d <= 2 * COORD_LIMIT,
            -RATIO_LIMIT <= s.num <= RATIO_LIMIT,
            t == d * s.num,
    ;
    let q = t / k;
    let r = t % k;
    vstd::arithmetic::div_mod::lemma_fundamental_div_mod(t, k);
    vstd::arithmetic::div_mod::lemma_mod_bound(t, k);
    assert(-2 * COORD_LIMIT * RATIO_LIMIT <= q <= 2 * COORD_LIMIT * RATIO_LIMIT) by (nonlinear_arith)
        requires
            -2 * COORD_LIMIT * RATIO_LIMIT <= t <= 2 * COORD_LIMIT * RATIO_LIMIT,
            k >= 1,
            t == k * q + r,
            0 <= r < k,
    ;
}

/// Moves `point` toward `centroid` by the fraction `scale`:
/// `point + (centroid - point) * scale`, rounded down to a fixed-point step.
/// A scale of zero keeps the point, a scale of one gives the centroid, and
/// other values interpolate or extrapolate.
pub fn move_to_centroid(point: &Point, centroid: Point, scale: Ratio) -> (r: Point)
    requires
        point.in_bounds(),
        centroid.in_bounds(),
        scale.wf(),
    ensures
        (r.x as int, r.y as int) == shrink(*point, centroid, scale),
{
    let d = centroid.minus(*point);
    proof {
        lemma_scaled_bound(d.x as int, scale);
        lemma_scaled_bound(d.y as int, scale);
    }
    point.plus(d.scaled(scale))
}

/// The point that `shrink` gives, as a `Point`.
pub open spec fn shrunk_point(v: Point, c: Point, s: Ratio) -> Point {
    Point { x: shrink(v, c, s).0 as i64, y: shrink(v, c, s).1 as i64 }
}

/// The centroid that `get_centroid` gives.
pub open spec fn centroid(polygon: Seq<Point>) -> Point {
    Point { x: mean(polygon, true) as i64, y: mean(polygon, false) as i64 }
}

/// Every vertex of `polygon`, moved toward the polygon's centroid by `scale`,
/// in the same order.
pub open spec fn shrunk_polygon(polygon: Seq<Point>, scale: Ratio) -> Seq<Point> {
    polygon.map_values(|v: Point| shrunk_point(v, centroid(polygon), scale))
}

/// Moves each vertex of a non-empty polygon toward its centroid by `scale`.
pub fn shrink_polygon(polygon: &Vec<Point>, scale: Ratio) -> (r: Vec<Point>)
    requires
        polygon.len() > 0,
        all_in_bounds(polygon@),
        scale.wf(),
    ensures
        r@ == shrunk_polygon(polygon@, scale),
{
    let c = get_centroid(polygon);
    let mut r: Vec<Point> = Vec::new();
    let mut i: usize = 0;
    while i < polygon.len()
        invariant
            i <= polygon.len(),
            r.len() == i,
            all_in_bounds(polygon@),
            scale.wf(),
            c.in_bounds(),
            c == centroid(polygon@),
            forall|k: int| 0 <= k < i ==> r[k] == shrunk_point(polygon@[k], c, scale),
        decreases polygon.len() - i,
    {
        assert(polygon@[i as int].in_bounds());
        let p = move_to_centroid(&polygon[i], c, scale);
        r.push(p);
        i = i + 1;
    }
    assert(r@ =~= shrunk_polygon(polygon@, scale));
    r
}

/// A scale of zero leaves every vertex where it is.
pub proof fn lemma_shrink_by_zero(v: Point, c: Point, s: Ratio)
    requires
        s.wf(),
        s.num == 0,
    ensures
        shrink(v, c, s) == (v.x as int, v.y as int),
{
}

/// A scale of one moves every vertex onto the centroid.
pub proof fn lemma_shrink_by_one(v: Point, c: Point, s: Ratio)
    requires
        s.wf(),
        s.num == s.den,
    ensures
        shrink(v, c, s) == (c.x as int, c.y as int),
{
    let k = s.den as int;
    vstd::arithmetic::div_mod::lemma_div_multiples_vanish(c.x - v.x, k);
    vstd::arithmetic::div_mod::lemma_div_multiples_vanish(c.y - v.y, k);
    assert((c.x - v.x) * k == k * (c.x - v.x)) by (nonlinear_arith);
    assert((c.y - v.y) * k == k * (c.y - v.y)) by (nonlinear_arith);
}

proof fn lemma_coord_sum_concat(a: Seq<Point>, b: Seq<Point>, horizontal: bool)
    ensures
        coord_sum(a + b, horizontal) == coord_sum(a, horizontal) + coord_sum(b, horizontal),
    decreases b.len(),
{
    if b.len() == 0 {
        assert(a + b =~= a);
    } else {
        lemma_coord_sum_concat(a, b.drop_last(), horizontal);
        assert((a + b).drop_last() =~= a + b.drop_last());
    }
}

proof fn lemma_coord_sum_remove(s: Seq<Point>, j: int, horizontal: bool)
    requires
        0 <= j < s.len(),
    ensures
        coord_sum(s, horizontal) == coord_sum(s.remove(j), horizontal) + coord(s[j], horizontal),
{
    let a = s.subrange(0, j);
    let b = s.subrange(j + 1, s.len() as int);
    assert(s =~= a + (seq![s[j]] + b));
    assert(s.remove(j) =~= a + b);
    lemma_coord_sum_concat(a, seq![s[j]] + b, horizontal);
    lemma_coord_sum_concat(seq![s[j]], b, horizontal);
    lemma_coord_sum_concat(a, b, horizontal);
    let e = seq![s[j]];
    assert(e.last() == s[j]);
    assert(e.drop_last() =~= Seq::<Point>::empty());
    assert(coord_sum(e.drop_last(), horizontal) == 0);
    assert(coord_sum(e, horizontal) == coord(s[j], horizontal));
}

proof fn lemma_coord_sum_permutation(s: Seq<Point>, t: Seq<Point>, horizontal: bool)
    requires
        s.to_multiset() == t.to_multiset(),
    ensures
        coord_sum(s, horizontal) == coord_sum(t, horizontal),
    decreases s.len(),
{
    broadcast use vstd::seq_lib::group_to_multiset_ensures;

    if s.len() == 0 {
        s.to_multiset_ensures();
        t.to_multiset_ensures();
        assert(t.len() == 0);
    } else {
        let x = s.last();
        let rest = s.drop_last();
        assert(s =~= rest.push(x));
        assert(s.to_multiset().count(x) > 0);
        assert(t.contains(x));
        let j = choose|j: int| 0 <= j < t.len() && t[j] == x;
        assert(rest.to_multiset() =~= s.to_multiset().remove(x));
        assert(t.remove(j).to_multiset() =~= t.to_multiset().remove(x));
        lemma_coord_sum_permutation(rest, t.remove(j), horizontal);
        lemma_coord_sum_remove(t, j, horizontal);
    }
}

/// The centroid does not depend on the order of the vertices: two polygons that
/// hold the same vertices, each as often, have the same centroid.
pub proof fn lemma_centroid_order_independent(p: Seq<Point>, q: Seq<Point>)
    requires
        p.to_multiset() == q.to_multiset(),
    ensures
        mean(p, true) == mean(q, true),
        mean(p, false) == mean(q, false),
{
    broadcast use vstd::seq_lib::group_to_multiset_ensures;

    p.to_multiset_ensures();
    q.to_multiset_ensures();
    assert(p.len() == q.len());
    lemma_coord_sum_permutation(p, q, true);
    lemma_coord_sum_permutation(p, q, false);
}

} // verus!
